use vstd::prelude::*;
use crate::sampling::{
    boundary, low_and_high_picks, samples_match, Interval, PickMode, MAX_PARTITIONS, MAX_SAMPLE,
};

verus! {

/// The largest magnitude of one segment's contribution.
pub const MAX_CONTRIBUTION: i128 = 6_000_000_000 * 9_223_372_036_854_775_808;

/// The signed area under the samples, in `1 / DOMAIN_UNIT^2` steps, and each
/// segment's share of it.
#[derive(Debug)]
pub struct AreaResult {
    pub total: i128,
    pub contributions: Vec<i128>,
}

pub open spec fn abs(v: int) -> int {
    if v < 0 { -v } else { v }
}

/// The height of a rectangle: the value where defined, else zero.
pub open spec fn height(y: Option<i64>) -> int {
    match y {
        Some(v) => v as int,
        None => 0,
    }
}

/// Segment `i` spans samples `i` and `i + 1`; its width counts as a
/// magnitude and its height is the value at sample `i`.
pub open spec fn contribution(xs: Seq<i64>, ys: Seq<Option<i64>>, i: int) -> int {
    abs(xs[i + 1] - xs[i]) * height(ys[i])
}

/// The sum of the first `k` contributions.
pub open spec fn area_upto(xs: Seq<i64>, ys: Seq<Option<i64>>, k: int) -> int
    decreases k,
{
    if k <= 0 {
        0
    } else {
        area_upto(xs, ys, k - 1) + contribution(xs, ys, k - 1)
    }
}

/// The number of segments between `len` samples.
pub open spec fn segment_count(len: int) -> int {
    if len == 0 { 0 } else { len - 1 }
}

/// The total signed area over all segments.
pub open spec fn total_area(xs: Seq<i64>, ys: Seq<Option<i64>>) -> int {
    area_upto(xs, ys, segment_count(xs.len() as int))
}

proof fn lemma_contribution_bound(xs: Seq<i64>, ys: Seq<Option<i64>>, i: int)
    requires
        0 <= i,
        i + 1 < xs.len(),
        i < ys.len(),
        -MAX_SAMPLE <= xs[i] <= MAX_SAMPLE,
        -MAX_SAMPLE <= xs[i + 1] <= MAX_SAMPLE,
    ensures
        -MAX_CONTRIBUTION <= contribution(xs, ys, i) <= MAX_CONTRIBUTION,
{
    let w = abs(xs[i + 1] - xs[i]);
    let h = height(ys[i]);
    assert(-MAX_CONTRIBUTION <= w * h <= MAX_CONTRIBUTION) by (nonlinear_arith)
        requires 0 <= w <= 6_000_000_000, -9_223_372_036_854_775_808 <= h <= 9_223_372_036_854_775_808,
            MAX_CONTRIBUTION == 6_000_000_000 * 9_223_372_036_854_775_808;
}

/// The signed Riemann sum over the consecutive sample pairs: segment `i` has
/// width `|xs[i+1] - xs[i]|` and height `ys[i]`, or zero where undefined.
/// Fewer than two samples give no segments and a total of zero.
pub fn accumulate(xs: &Vec<i64>, ys: &Vec<Option<i64>>) -> (r: AreaResult)
    requires
        xs@.len() == ys@.len(),
        xs@.len() <= MAX_PARTITIONS + 1,
        forall|i: int| 0 <= i < xs@.len() ==> -MAX_SAMPLE <= #[trigger] xs@[i] <= MAX_SAMPLE,
    ensures
        r.total == total_area(xs@, ys@),
        r.contributions@.len() == segment_count(xs@.len() as int),
        forall|i: int|
            0 <= i < r.contributions@.len() ==> r.contributions@[i] == contribution(xs@, ys@, i),
{
    let mut total: i128 = 0;
    let mut contributions: Vec<i128> = Vec::new();
    if xs.len() == 0 {
        return AreaResult { total, contributions };
    }
    let mut i: usize = 0;
    while i + 1 < xs.len()
        invariant
            xs@.len() == ys@.len(),
            1 <= xs@.len() <= MAX_PARTITIONS + 1,
            forall|j: int| 0 <= j < xs@.len() ==> -MAX_SAMPLE <= #[trigger] xs@[j] <= MAX_SAMPLE,
            i < xs@.len(),
            total == area_upto(xs@, ys@, i as int),
            -(MAX_CONTRIBUTION * i) <= total <= MAX_CONTRIBUTION * i,
            contributions@.len() == i,
            forall|j: int| 0 <= j < i ==> contributions@[j] == contribution(xs@, ys@, j),
        decreases xs@.len() - i,
    {
        proof {
            lemma_contribution_bound(xs@, ys@, i as int);
        }
        let d: i64 = xs[i + 1] - xs[i];
        let width: i128 = if d < 0 { -(d as i128) } else { d as i128 };
        let h: i128 = match ys[i] {
            Some(v) => v as i128,
            None => 0,
        };
        assert(width * h == contribution(xs@, ys@, i as int));
        let c: i128 = width * h;
        assert(-(MAX_CONTRIBUTION * (i + 1)) <= total + c <= MAX_CONTRIBUTION * (i + 1)) by (nonlinear_arith)
            requires -(MAX_CONTRIBUTION * i) <= total <= MAX_CONTRIBUTION * i,
                -MAX_CONTRIBUTION <= c <= MAX_CONTRIBUTION;
        assert(MAX_CONTRIBUTION * (i + 1) <= MAX_CONTRIBUTION * (MAX_PARTITIONS + 1)) by (nonlinear_arith)
            requires i + 1 <= MAX_PARTITIONS + 1;
        assert(MAX_CONTRIBUTION * (MAX_PARTITIONS + 1) < 1_000_000_000_000_000_000_000_000_000_000_000);
        total = total + c;
        contributions.push(c);
        i = i + 1;
    }
    AreaResult { total, contributions }
}

proof fn lemma_scaled_upto(xs: Seq<i64>, ys: Seq<Option<i64>>, zs: Seq<Option<i64>>, k: int, m: int)
    requires
        0 <= m < xs.len(),
        ys.len() == xs.len(),
        zs.len() == xs.len(),
        forall|i: int|
            0 <= i < xs.len() ==> (#[trigger] ys[i]) is Some && zs[i] is Some && zs[i].unwrap() == k
                * ys[i].unwrap(),
    ensures
        area_upto(xs, zs, m) == k * area_upto(xs, ys, m),
    decreases m,
{
    if m > 0 {
        lemma_scaled_upto(xs, ys, zs, k, m - 1);
        let w = abs(xs[m] - xs[m - 1]);
        let h = height(ys[m - 1]);
        assert(ys[m - 1] is Some);
        assert(w * (k * h) == k * (w * h)) by (nonlinear_arith);
        assert(k * area_upto(xs, ys, m - 1) + k * (w * h) == k * (area_upto(xs, ys, m - 1) + w * h))
            by (nonlinear_arith);
    }
}

/// Scaling every sampled value by `k` scales the total area by `k`, when every
/// sample is defined.
pub proof fn area_scales_with_values(xs: Seq<i64>, ys: Seq<Option<i64>>, zs: Seq<Option<i64>>, k: int)
    requires
        ys.len() == xs.len(),
        zs.len() == xs.len(),
        forall|i: int|
            0 <= i < xs.len() ==> (#[trigger] ys[i]) is Some && zs[i] is Some && zs[i].unwrap() == k
                * ys[i].unwrap(),
    ensures
        total_area(xs, zs) == k * total_area(xs, ys),
{
    if xs.len() > 0 {
        lemma_scaled_upto(xs, ys, zs, k, xs.len() - 1);
    }
}

proof fn lemma_undefined_upto(xs: Seq<i64>, ys: Seq<Option<i64>>, m: int)
    requires
        0 <= m < xs.len(),
        ys.len() == xs.len(),
        forall|i: int| 0 <= i < ys.len() ==> (#[trigger] ys[i]) is None,
    ensures
        area_upto(xs, ys, m) == 0,
    decreases m,
{
    if m > 0 {
        lemma_undefined_upto(xs, ys, m - 1);
        assert(ys[m - 1] is None);
    }
}

/// Where the function is undefined at every sample, the total area is zero.
pub proof fn undefined_samples_give_zero_area(xs: Seq<i64>, ys: Seq<Option<i64>>)
    requires
        ys.len() == xs.len(),
        forall|i: int| 0 <= i < ys.len() ==> (#[trigger] ys[i]) is None,
    ensures
        total_area(xs, ys) == 0,
{
    if xs.len() > 0 {
        lemma_undefined_upto(xs, ys, xs.len() - 1);
    }
}

proof fn lemma_telescope(xs: Seq<i64>, ys: Seq<Option<i64>>, c: i64, m: int)
    requires
        0 <= m < xs.len(),
        ys.len() == xs.len(),
        forall|i: int| 0 <= i < ys.len() ==> (#[trigger] ys[i]) == Some(c),
        forall|i: int| 0 <= i < m ==> #[trigger] xs[i] <= xs[i + 1],
    ensures
        area_upto(xs, ys, m) == c * (xs[m] - xs[0]),
    decreases m,
{
    if m > 0 {
        lemma_telescope(xs, ys, c, m - 1);
        assert(ys[m - 1] == Some(c));
        assert(xs[m - 1] <= xs[m]);
        assert(contribution(xs, ys, m - 1) == (xs[m] - xs[m - 1]) * c);
        assert(c * (xs[m - 1] - xs[0]) + (xs[m] - xs[m - 1]) * c == c * (xs[m] - xs[0]))
            by (nonlinear_arith);
    } else {
        assert(c * (xs[m] - xs[0]) == 0) by (nonlinear_arith)
            requires m == 0;
    }
}

/// For a constant function `c` sampled at the low points, the area is exactly
/// `c * (b - a)`: the widths of the partition add up to the interval's width.
pub proof fn constant_low_area_is_exact(
    iv: Interval,
    n: int,
    c: i64,
    custom: u32,
    draws: Seq<u32>,
    xs: Seq<i64>,
    ys: Seq<Option<i64>>,
)
    requires
        iv.wf(),
        1 <= n <= MAX_PARTITIONS,
        samples_match(xs, iv, n, PickMode::Low, custom, draws),
        ys.len() == xs.len(),
        forall|i: int| 0 <= i < ys.len() ==> (#[trigger] ys[i]) == Some(c),
    ensures
        total_area(xs, ys) == c * (iv.b - iv.a),
{
    let a = iv.a as int;
    let b = iv.b as int;
    low_and_high_picks(iv, n, custom, draws);
    assert forall|i: int| 0 <= i < n implies #[trigger] xs[i] <= xs[i + 1] by {
        assert(xs[i] == boundary(a, b, n, i));
        assert(xs[i + 1] == boundary(a, b, n, i + 1));
        assert(i * (b - a) <= (i + 1) * (b - a)) by (nonlinear_arith)
            requires a < b;
        vstd::arithmetic::div_mod::lemma_div_is_ordered(i * (b - a), (i + 1) * (b - a), n);
    }
    lemma_telescope(xs, ys, c, n);
    assert(xs[0] == boundary(a, b, n, 0));
    assert(xs[n] == boundary(a, b, n, n));
    assert(0 * (b - a) == 0);
    vstd::arithmetic::div_mod::lemma_div_multiples_vanish(b - a, n);
    assert(n * (b - a) == (b - a) * n) by (nonlinear_arith);
    assert(c * (b - a) == c * (iv.b - iv.a));
}

/// Steps of `1 / DOMAIN_UNIT^2` in one thousandth of a unit.
pub const AREA_PER_THOUSANDTH: i128 = 1_000_000_000;

/// An area rounded to thousandths, half away from zero, split for display
/// as `[-]whole.thousandths`.
#[derive(Clone, Copy, Debug, PartialEq, Eq, Structural)]
pub struct AreaLabel {
    pub negative: bool,
    pub whole: u128,
    pub thousandths: u32,
}

/// `|total|` in thousandths of a unit, rounded half up.
pub open spec fn rounded_thousandths(total: int) -> int {
    (abs(total) + AREA_PER_THOUSANDTH as int / 2) / (AREA_PER_THOUSANDTH as int)
}

/// The display parts of an area total given in `1 / DOMAIN_UNIT^2` steps;
/// an area that rounds to zero shows no sign.
pub fn area_label(total: i128) -> (r: AreaLabel)
    ensures
        r.negative == (total < 0 && rounded_thousandths(total as int) > 0),
        r.whole == rounded_thousandths(total as int) / 1000,
        r.thousandths == rounded_thousandths(total as int) % 1000,
{
    let mag: u128 = if total < 0 { (-(total + 1)) as u128 + 1 } else { total as u128 };
    let half: u128 = (AREA_PER_THOUSANDTH / 2) as u128;
    let milli: u128 = (mag + half) / AREA_PER_THOUSANDTH as u128;
    AreaLabel { negative: total < 0 && milli > 0, whole: milli / 1000, thousandths: (milli % 1000) as u32 }
}

} // verus!
