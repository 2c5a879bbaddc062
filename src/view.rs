use vstd::prelude::*;
use crate::sampling::{Interval, MAX_SAMPLE};
use crate::fixed::{floor_div, DOMAIN_UNIT};
use crate::area::{abs, height};

verus! {

/// Zoom factors are integers counted in thousandths.
pub const ZOOM_ONE: u32 = 1000;

/// Screen positions are integers counted in thousandths of a pixel.
pub const PIXEL_STEPS: u32 = 1000;

/// The vertical extent used when no sample has a nonzero defined value.
pub const MIN_EXTENT: u128 = 1;

/// The largest magnitude among the defined values of the first `k` samples,
/// zero where there is none.
pub open spec fn max_abs_upto(ys: Seq<Option<i64>>, k: int) -> int
    decreases k,
{
    if k <= 0 {
        0
    } else {
        let m = max_abs_upto(ys, k - 1);
        let v = abs(height(ys[k - 1]));
        if v > m { v } else { m }
    }
}

/// The largest magnitude among the defined values, zero where there is none.
pub open spec fn max_abs_defined(ys: Seq<Option<i64>>) -> int {
    max_abs_upto(ys, ys.len() as int)
}

/// Twice the largest magnitude, or `MIN_EXTENT` where that is zero.
pub open spec fn extent_of(max_abs: int) -> int {
    if max_abs == 0 { MIN_EXTENT as int } else { 2 * max_abs }
}

/// The largest magnitude among the defined values; undefined samples are
/// left out, and with none defined the result is zero.
pub fn max_abs_value(ys: &Vec<Option<i64>>) -> (r: u64)
    ensures
        r == max_abs_defined(ys@),
{
    let mut m: u64 = 0;
    let mut i: usize = 0;
    while i < ys.len()
        invariant
            i <= ys@.len(),
            m == max_abs_upto(ys@, i as int),
        decreases ys@.len() - i,
    {
        let v: u64 = match ys[i] {
            Some(y) => if y < 0 { (-(y as i128)) as u64 } else { y as u64 },
            None => 0,
        };
        if v > m {
            m = v;
        }
        i = i + 1;
    }
    m
}

/// The vertical span shown: twice the largest magnitude, so that zero sits
/// in the middle, or `MIN_EXTENT` when that would be zero.
pub fn vertical_extent(max_abs: u64) -> (r: u128)
    ensures
        r == extent_of(max_abs as int),
        r > 0,
{
    if max_abs == 0 {
        MIN_EXTENT
    } else {
        2 * max_abs as u128
    }
}

/// The affine map from domain and range values to screen positions.
#[derive(Clone, Copy, Debug, PartialEq, Eq, Structural)]
pub struct ViewTransform {
    pub interval: Interval,
    pub zoom: u32,
    pub viewport_w: u32,
    pub viewport_h: u32,
    pub extent: u128,
}

/// A viewport length in pixels, times the zoom and pixel step counts.
pub open spec fn pixel_factor(px: u32) -> int {
    px * (ZOOM_ONE * PIXEL_STEPS)
}

/// Screen x of `x`, in `1 / PIXEL_STEPS` pixels: the offset from the middle
/// of the interval times `scale_x`, rounded down.
pub open spec fn screen_x_spec(v: ViewTransform, x: int) -> int {
    ((2 * x - (v.interval.a + v.interval.b)) * pixel_factor(v.viewport_w)) / (2 * v.zoom * (
    v.interval.b - v.interval.a))
}

/// Screen y of `y`, in `1 / PIXEL_STEPS` pixels: `y` times `scale_y`, rounded down.
pub open spec fn screen_y_spec(v: ViewTransform, y: int) -> int {
    (y * pixel_factor(v.viewport_h)) / (v.zoom * v.extent)
}

proof fn lemma_mul_within(x: int, y: int, bx: int, by: int)
    requires
        -bx <= x <= bx,
        0 <= y <= by,
    ensures
        -(bx * by) <= x * y <= bx * by,
{
    assert(-(bx * by) <= x * y <= bx * by) by (nonlinear_arith)
        requires -bx <= x <= bx, 0 <= y <= by;
}

impl ViewTransform {
    pub open spec fn wf(self) -> bool {
        self.interval.wf() && self.zoom > 0 && 0 < self.extent <= 2 * 0x1_0000_0000_0000_0000
    }

    /// The transform for `iv` at `zoom` (in thousandths) on a viewport of
    /// `viewport_w` by `viewport_h` pixels, fitted to `max_abs_y`.
    pub fn new(iv: Interval, zoom: u32, viewport_w: u32, viewport_h: u32, max_abs_y: u64) -> (r:
        ViewTransform)
        requires
            iv.wf(),
            zoom > 0,
        ensures
            r.wf(),
            r == (ViewTransform {
                interval: iv,
                zoom,
                viewport_w,
                viewport_h,
                extent: extent_of(max_abs_y as int) as u128,
            }),
    {
        ViewTransform { interval: iv, zoom, viewport_w, viewport_h, extent: vertical_extent(max_abs_y) }
    }

    /// Pixels per domain unit across: `viewport_w / (zoom * (b - a))`, as a
    /// numerator and a denominator.
    pub fn scale_x(&self) -> (r: (u128, u128))
        requires
            self.wf(),
        ensures
            r.0 == self.viewport_w * ZOOM_ONE * DOMAIN_UNIT,
            r.1 == self.zoom * (self.interval.b - self.interval.a),
            r.1 > 0,
    {
        let w: u128 = (self.interval.b as i128 - self.interval.a as i128) as u128;
        assert(0 < self.zoom * w <= 0xffff_ffff * 2_000_000_000int) by (nonlinear_arith)
            requires 0 < self.zoom <= 0xffff_ffff, 0 < w <= 2_000_000_000;
        (self.viewport_w as u128 * ZOOM_ONE as u128 * DOMAIN_UNIT as u128, self.zoom as u128 * w)
    }

    /// Pixels per range unit upwards: `viewport_h / (zoom * extent)`, as a
    /// numerator and a denominator.
    pub fn scale_y(&self) -> (r: (u128, u128))
        requires
            self.wf(),
        ensures
            r.0 == self.viewport_h * ZOOM_ONE * DOMAIN_UNIT,
            r.1 == self.zoom * self.extent,
            r.1 > 0,
    {
        assert(0 < self.zoom * self.extent <= 0xffff_ffff * (2 * 0x1_0000_0000_0000_0000)) by (nonlinear_arith)
            requires 0 < self.zoom <= 0xffff_ffff, 0 < self.extent <= 2 * 0x1_0000_0000_0000_0000;
        (self.viewport_h as u128 * ZOOM_ONE as u128 * DOMAIN_UNIT as u128, self.zoom as u128 * self.extent)
    }

    /// Screen x of the domain value `x`.
    pub fn screen_x(&self, x: i64) -> (r: i128)
        requires
            self.wf(),
            -MAX_SAMPLE <= x <= MAX_SAMPLE,
        ensures
            r == screen_x_spec(*self, x as int),
    {
        let a: i128 = self.interval.a as i128;
        let b: i128 = self.interval.b as i128;
        let off: i128 = 2 * x as i128 - (a + b);
        assert(0 <= self.viewport_w * 1_000_000int <= 0xffff_ffff * 1_000_000int) by (nonlinear_arith)
            requires 0 <= self.viewport_w <= 0xffff_ffff;
        let k: i128 = self.viewport_w as i128 * (ZOOM_ONE as i128 * PIXEL_STEPS as i128);
        proof {
            lemma_mul_within(off as int, k as int, 8_000_000_000, 0xffff_ffff * 1_000_000int);
            lemma_mul_within(2 * self.zoom, b - a, 2 * 0xffff_ffffint, 2_000_000_000);
            assert(2 * self.zoom * (b - a) > 0) by (nonlinear_arith)
                requires self.zoom > 0, b > a;
        }
        let den: i128 = 2 * self.zoom as i128 * (b - a);
        floor_div(off * k, den)
    }

    /// Screen y of the range value `y`.
    pub fn screen_y(&self, y: i64) -> (r: i128)
        requires
            self.wf(),
        ensures
            r == screen_y_spec(*self, y as int),
    {
        assert(0 <= self.viewport_h * 1_000_000int <= 0xffff_ffff * 1_000_000int) by (nonlinear_arith)
            requires 0 <= self.viewport_h <= 0xffff_ffff;
        let k: i128 = self.viewport_h as i128 * (ZOOM_ONE as i128 * PIXEL_STEPS as i128);
        let yy: i128 = y as i128;
        proof {
            lemma_mul_within(yy as int, k as int, 0x8000_0000_0000_0000, 0xffff_ffff * 1_000_000int);
            lemma_mul_within(self.zoom as int, self.extent as int, 0xffff_ffff, 2 * 0x1_0000_0000_0000_0000int);
            assert(self.zoom * self.extent > 0) by (nonlinear_arith)
                requires self.zoom > 0, self.extent > 0;
        }
        let den: i128 = self.zoom as i128 * self.extent as i128;
        floor_div(yy * k, den)
    }

    /// Screen x of the domain value zero.
    pub fn origin_offset_x(&self) -> (r: i128)
        requires
            self.wf(),
        ensures
            r == screen_x_spec(*self, 0),
    {
        self.screen_x(0)
    }
}

proof fn lemma_undefined_max(ys: Seq<Option<i64>>, k: int)
    requires
        0 <= k <= ys.len(),
        forall|i: int| 0 <= i < ys.len() ==> (#[trigger] ys[i]) is None,
    ensures
        max_abs_upto(ys, k) == 0,
    decreases k,
{
    if k > 0 {
        lemma_undefined_max(ys, k - 1);
        assert(ys[k - 1] is None);
    }
}

/// Where the function is undefined at every sample, the largest magnitude is
/// zero and the vertical extent falls back to `MIN_EXTENT`, which is positive.
pub proof fn undefined_samples_keep_extent_positive(ys: Seq<Option<i64>>)
    requires
        forall|i: int| 0 <= i < ys.len() ==> (#[trigger] ys[i]) is None,
    ensures
        max_abs_defined(ys) == 0,
        extent_of(max_abs_defined(ys)) == MIN_EXTENT,
        MIN_EXTENT > 0,
{
    lemma_undefined_max(ys, ys.len() as int);
}

/// A mark of the helper grid: the value it stands for, its screen position,
/// and whether it carries a label (every second mark does).
#[derive(Clone, Copy, Debug, PartialEq, Eq, Structural)]
pub struct Tick {
    pub value: i128,
    pub pos: i128,
    pub labelled: bool,
}

/// The number of grid steps on each side of the middle mark.
pub const HALF_TICKS: u32 = 10;

/// Across-mark `k` stands for `(k - 10) / 20` of the interval's width, rounded down.
pub open spec fn x_tick_value(v: ViewTransform, k: int) -> int {
    ((k - HALF_TICKS) * (v.interval.b - v.interval.a)) / (2 * HALF_TICKS)
}

/// Upward mark `k` stands for `(k - 10) / 20` of the vertical extent, rounded down.
pub open spec fn y_tick_value(v: ViewTransform, k: int) -> int {
    ((k - HALF_TICKS) * v.extent) / (2 * HALF_TICKS)
}

impl ViewTransform {
    /// The 21 marks across, each placed at the screen x of its value.
    pub fn x_ticks(&self) -> (r: Vec<Tick>)
        requires
            self.wf(),
        ensures
            r@.len() == 2 * HALF_TICKS + 1,
            forall|k: int|
                0 <= k < r@.len() ==> r@[k] == (Tick {
                    value: x_tick_value(*self, k) as i128,
                    pos: screen_x_spec(*self, x_tick_value(*self, k)) as i128,
                    labelled: k % 2 == 0,
                }),
    {
        let w: i128 = self.interval.b as i128 - self.interval.a as i128;
        let mut r: Vec<Tick> = Vec::new();
        let mut k: u32 = 0;
        while k <= 2 * HALF_TICKS
            invariant
                self.wf(),
                w == self.interval.b - self.interval.a,
                k <= 2 * HALF_TICKS + 1,
                r@.len() == k,
                forall|j: int|
                    0 <= j < k ==> r@[j] == (Tick {
                        value: x_tick_value(*self, j) as i128,
                        pos: screen_x_spec(*self, x_tick_value(*self, j)) as i128,
                        labelled: j % 2 == 0,
                    }),
            decreases 2 * HALF_TICKS + 1 - k,
        {
            let step: i128 = k as i128 - HALF_TICKS as i128;
            proof {
                lemma_mul_within(step as int, w as int, 10, 2_000_000_000);
                lemma_tick_within(step as int * w, 10 * 2_000_000_000int, 20);
            }
            let value: i128 = floor_div(step * w, 2 * HALF_TICKS as i128);
            let pos: i128 = self.screen_x(value as i64);
            r.push(Tick { value, pos, labelled: k % 2 == 0 });
            k = k + 1;
        }
        r
    }

    /// The 20 marks upwards, the middle one left out, each placed at the
    /// screen y of its value.
    pub fn y_ticks(&self) -> (r: Vec<Tick>)
        requires
            self.wf(),
        ensures
            r@.len() == 2 * HALF_TICKS,
            forall|j: int|
                0 <= j < r@.len() ==> r@[j] == (Tick {
                    value: y_tick_value(*self, y_tick_index(j)) as i128,
                    pos: screen_y_spec(*self, y_tick_value(*self, y_tick_index(j))) as i128,
                    labelled: y_tick_index(j) % 2 == 0,
                }),
    {
        let e: i128 = self.extent as i128;
        let kh: i128 = self.viewport_h as i128 * (ZOOM_ONE as i128 * PIXEL_STEPS as i128);
        proof {
            assert(0 <= self.viewport_h * 1_000_000int <= 0xffff_ffff * 1_000_000int) by (nonlinear_arith)
                requires 0 <= self.viewport_h <= 0xffff_ffff;
            lemma_mul_within(self.zoom as int, self.extent as int, 0xffff_ffff, 2 * 0x1_0000_0000_0000_0000int);
            assert(self.zoom * self.extent > 0) by (nonlinear_arith)
                requires self.zoom > 0, self.extent > 0;
        }
        let den: i128 = self.zoom as i128 * e;
        let mut r: Vec<Tick> = Vec::new();
        let mut k: u32 = 0;
        while k <= 2 * HALF_TICKS
            invariant
                self.wf(),
                e == self.extent,
                kh == pixel_factor(self.viewport_h),
                0 <= kh <= 0xffff_ffff * 1_000_000int,
                den == self.zoom * self.extent,
                den > 0,
                k <= 2 * HALF_TICKS + 1,
                r@.len() == if k <= HALF_TICKS { k as int } else { k - 1 },
                forall|j: int|
                    0 <= j < r@.len() ==> r@[j] == (Tick {
                        value: y_tick_value(*self, y_tick_index(j)) as i128,
                        pos: screen_y_spec(*self, y_tick_value(*self, y_tick_index(j))) as i128,
                        labelled: y_tick_index(j) % 2 == 0,
                    }),
            decreases 2 * HALF_TICKS + 1 - k,
        {
            if k != HALF_TICKS {
                let step: i128 = k as i128 - HALF_TICKS as i128;
                proof {
                    lemma_mul_within(step as int, e as int, 10, 2 * 0x1_0000_0000_0000_0000int);
                    lemma_tick_within(step as int * e, 10 * (2 * 0x1_0000_0000_0000_0000int), 20);
                }
                let value: i128 = floor_div(step * e, 2 * HALF_TICKS as i128);
                proof {
                    lemma_mul_within(value as int, kh as int, 0x1_0000_0000_0000_0000int, 0xffff_ffff * 1_000_000int);
                }
                let pos: i128 = floor_div(value * kh, den);
                r.push(Tick { value, pos, labelled: k % 2 == 0 });
            }
            k = k + 1;
        }
        r
    }
}

/// The grid step of upward mark `j`: the middle step is skipped.
pub open spec fn y_tick_index(j: int) -> int {
    if j < HALF_TICKS { j } else { j + 1 }
}

proof fn lemma_tick_within(p: int, b: int, d: int)
    requires
        -b <= p <= b,
        d > 0,
        b >= 0,
    ensures
        -b <= p / d <= b,
{
    vstd::arithmetic::div_mod::lemma_div_is_ordered(p, b, d);
    vstd::arithmetic::div_mod::lemma_div_is_ordered(-b, p, d);
    vstd::arithmetic::div_mod::lemma_div_pos_is_pos(b, d);
    vstd::arithmetic::div_mod::lemma_div_is_ordered_by_denominator(b, 1, d);
    assert(-b <= (-b) / d) by {
        let q = (-b) / d;
        let r = (-b) % d;
        vstd::arithmetic::div_mod::lemma_fundamental_div_mod(-b, d);
        vstd::arithmetic::div_mod::lemma_mod_bound(-b, d);
        assert(q >= -b) by (nonlinear_arith)
            requires d >= 1, b >= 0, -b == d * q + r, 0 <= r < d;
    }
}

} // verus!
