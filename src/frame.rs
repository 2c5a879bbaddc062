use vstd::prelude::*;
use crate::area::{accumulate, contribution, height, segment_count, total_area, AreaResult};
use crate::evaluator::{evaluate_all, Evaluator};
use crate::sampling::{
    draws_ok, lemma_sample_range, sample_error, samples_match, ConfigError, Interval, PickMode,
    MAX_SAMPLE,
};
use crate::seeding::generate_samples;
use crate::view::{
    extent_of, max_abs_defined, max_abs_value, screen_x_spec, screen_y_spec, ViewTransform,
};

verus! {

/// One frame's settings, as read from the control surface.
#[derive(Debug)]
pub struct Config {
    pub n: u32,
    pub interval: Interval,
    pub pick_mode: PickMode,
    /// The custom pick fraction, in millionths.
    pub custom_pick: u32,
    pub seed: String,
    /// The zoom factor, in thousandths.
    pub zoom: u32,
    pub show_area: bool,
    pub draw_helpers: bool,
}

/// One area rectangle on screen: it spans `left` to `right` across and `0`
/// to `top` upwards; `gain` marks a positive contribution.
#[derive(Clone, Copy, Debug, PartialEq, Eq, Structural)]
pub struct Bar {
    pub left: i128,
    pub right: i128,
    pub top: i128,
    pub gain: bool,
}

/// Everything one frame shows.
#[derive(Debug)]
pub struct Frame {
    pub samples: Vec<i64>,
    pub values: Vec<Option<i64>>,
    pub area: AreaResult,
    pub view: ViewTransform,
    pub curve: Vec<(i128, i128)>,
    pub bars: Vec<Bar>,
}

/// The first reason, if any, why `cfg` cannot be drawn.
pub open spec fn config_error(cfg: Config) -> Option<ConfigError> {
    if sample_error(cfg.interval, cfg.n, cfg.custom_pick) is Some {
        sample_error(cfg.interval, cfg.n, cfg.custom_pick)
    } else if cfg.zoom == 0 {
        Some(ConfigError::BadZoom)
    } else {
        None
    }
}

/// Every one of `xs` lies within `MAX_SAMPLE` in magnitude.
pub open spec fn within_sample_range(xs: Seq<i64>) -> bool {
    forall|i: int| 0 <= i < xs.len() ==> -MAX_SAMPLE <= #[trigger] xs[i] <= MAX_SAMPLE
}

/// Curve point `i`: sample `i` on screen, at height zero where undefined.
pub open spec fn curve_point(v: ViewTransform, xs: Seq<i64>, ys: Seq<Option<i64>>, i: int) -> (
    int,
    int,
) {
    (screen_x_spec(v, xs[i] as int), screen_y_spec(v, height(ys[i])))
}

/// Bar `i`: segment `i` on screen.
pub open spec fn bar_spec(v: ViewTransform, xs: Seq<i64>, ys: Seq<Option<i64>>, i: int) -> Bar {
    Bar {
        left: screen_x_spec(v, xs[i] as int) as i128,
        right: screen_x_spec(v, xs[i + 1] as int) as i128,
        top: screen_y_spec(v, height(ys[i])) as i128,
        gain: contribution(xs, ys, i) > 0,
    }
}

/// The polyline through all samples, mapped to the screen.
pub fn curve_points(v: &ViewTransform, xs: &Vec<i64>, ys: &Vec<Option<i64>>) -> (r: Vec<(i128, i128)>)
    requires
        v.wf(),
        xs@.len() == ys@.len(),
        within_sample_range(xs@),
    ensures
        r@.len() == xs@.len(),
        forall|i: int|
            0 <= i < xs@.len() ==> (r@[i].0 as int, r@[i].1 as int) == curve_point(*v, xs@, ys@, i),
{
    let mut r: Vec<(i128, i128)> = Vec::new();
    let mut i: usize = 0;
    while i < xs.len()
        invariant
            v.wf(),
            xs@.len() == ys@.len(),
            within_sample_range(xs@),
            i <= xs@.len(),
            r@.len() == i,
            forall|j: int|
                0 <= j < i ==> (r@[j].0 as int, r@[j].1 as int) == curve_point(*v, xs@, ys@, j),
        decreases xs@.len() - i,
    {
        let y: i64 = match ys[i] {
            Some(y) => y,
            None => 0,
        };
        r.push((v.screen_x(xs[i]), v.screen_y(y)));
        i = i + 1;
    }
    r
}

/// One rectangle per segment, mapped to the screen, marked by the sign of
/// its contribution.
pub fn area_bars(v: &ViewTransform, xs: &Vec<i64>, ys: &Vec<Option<i64>>, area: &AreaResult) -> (r:
    Vec<Bar>)
    requires
        v.wf(),
        xs@.len() == ys@.len(),
        within_sample_range(xs@),
        area.contributions@.len() == segment_count(xs@.len() as int),
        forall|i: int|
            0 <= i < area.contributions@.len() ==> area.contributions@[i] == contribution(
                xs@,
                ys@,
                i,
            ),
    ensures
        r@.len() == segment_count(xs@.len() as int),
        forall|i: int| 0 <= i < r@.len() ==> r@[i] == bar_spec(*v, xs@, ys@, i),
{
    let mut r: Vec<Bar> = Vec::new();
    let count: usize = area.contributions.len();
    let mut i: usize = 0;
    while i < count
        invariant
            v.wf(),
            xs@.len() == ys@.len(),
            within_sample_range(xs@),
            count == area.contributions@.len(),
            count == segment_count(xs@.len() as int),
            forall|j: int|
                0 <= j < count ==> area.contributions@[j] == contribution(xs@, ys@, j),
            i <= count,
            r@.len() == i,
            forall|j: int| 0 <= j < i ==> r@[j] == bar_spec(*v, xs@, ys@, j),
        decreases count - i,
    {
        let y: i64 = match ys[i] {
            Some(y) => y,
            None => 0,
        };
        let bar = Bar {
            left: v.screen_x(xs[i]),
            right: v.screen_x(xs[i + 1]),
            top: v.screen_y(y),
            gain: area.contributions[i] > 0,
        };
        r.push(bar);
        i = i + 1;
    }
    r
}

/// `fr` is the frame of `cfg` drawn with `f` on the given viewport from the
/// samples it holds.
pub open spec fn frame_from(fr: Frame, cfg: Config, f: impl Evaluator, w: u32, h: u32) -> bool {
    let xs = fr.samples@;
    let ys = fr.values@;
    &&& ys.len() == xs.len()
    &&& forall|i: int| 0 <= i < xs.len() ==> ys[i] == f.value_at(#[trigger] xs[i])
    &&& fr.area.total == total_area(xs, ys)
    &&& fr.area.contributions@.len() == segment_count(xs.len() as int)
    &&& forall|i: int|
        0 <= i < fr.area.contributions@.len() ==> fr.area.contributions@[i] == contribution(
            xs,
            ys,
            i,
        )
    &&& fr.view == ViewTransform {
        interval: cfg.interval,
        zoom: cfg.zoom,
        viewport_w: w,
        viewport_h: h,
        extent: extent_of(max_abs_defined(ys)) as u128,
    }
    &&& fr.curve@.len() == xs.len()
    &&& forall|i: int|
        0 <= i < xs.len() ==> (fr.curve@[i].0 as int, fr.curve@[i].1 as int) == curve_point(
            fr.view,
            xs,
            ys,
            i,
        )
    &&& fr.bars@.len() == segment_count(xs.len() as int)
    &&& forall|i: int| 0 <= i < fr.bars@.len() ==> fr.bars@[i] == bar_spec(fr.view, xs, ys, i)
}

/// The frame of a valid `cfg` from the given samples: the values of `f` at
/// them, the signed area, the fitted view, the curve and the bars.
pub fn frame_from_samples<E: Evaluator>(
    cfg: &Config,
    f: &E,
    viewport_w: u32,
    viewport_h: u32,
    samples: Vec<i64>,
) -> (r: Frame)
    requires
        config_error(*cfg) is None,
        samples@.len() == cfg.n + 1,
        within_sample_range(samples@),
    ensures
        r.samples@ == samples@,
        frame_from(r, *cfg, *f, viewport_w, viewport_h),
{
    let values = evaluate_all(f, &samples);
    let area = accumulate(&samples, &values);
    let view = ViewTransform::new(cfg.interval, cfg.zoom, viewport_w, viewport_h, max_abs_value(&values));
    let curve = curve_points(&view, &samples, &values);
    let bars = area_bars(&view, &samples, &values, &area);
    Frame { samples, values, area, view, curve, bars }
}

/// The frame of `cfg` drawn with `f`: refused exactly as `config_error`
/// says, else built from the samples that `cfg` picks (under `Random`, from
/// some valid draws of the generator seeded by the text).
pub fn compute_frame<E: Evaluator>(cfg: &Config, f: &E, viewport_w: u32, viewport_h: u32) -> (r:
    Result<Frame, ConfigError>)
    ensures
        config_error(*cfg) is Some ==> r == Err::<Frame, ConfigError>(config_error(*cfg).unwrap()),
        config_error(*cfg) is None ==> (r matches Ok(fr) && frame_from(fr, *cfg, *f, viewport_w, viewport_h)
            && exists|d: Seq<u32>|
            draws_ok(d, cfg.n as int) && samples_match(
                fr.samples@,
                cfg.interval,
                cfg.n as int,
                cfg.pick_mode,
                cfg.custom_pick,
                d,
            )),
{
    let samples = match generate_samples(cfg.interval, cfg.n, cfg.pick_mode, cfg.custom_pick, cfg.seed.as_str()) {
        Ok(v) => v,
        Err(e) => {
            return Err(e);
        },
    };
    if cfg.zoom == 0 {
        return Err(ConfigError::BadZoom);
    }
    proof {
        let d = choose|d: Seq<u32>|
            draws_ok(d, cfg.n as int) && samples_match(
                samples@,
                cfg.interval,
                cfg.n as int,
                cfg.pick_mode,
                cfg.custom_pick,
                d,
            );
        assert forall|i: int| 0 <= i < samples@.len() implies -MAX_SAMPLE <= #[trigger] samples@[i]
            <= MAX_SAMPLE by {
            lemma_sample_range(cfg.interval, cfg.n as int, cfg.pick_mode, cfg.custom_pick, d, i);
        }
    }
    Ok(frame_from_samples(cfg, f, viewport_w, viewport_h, samples))
}

} // verus!
