use vstd::prelude::*;
use crate::fixed::FRACTION_ONE;

verus! {

/// The largest partition count accepted.
pub const MAX_PARTITIONS: u32 = 2000;

/// Interval bounds lie within this magnitude (a thousand domain units).
pub const MAX_COORD: i64 = 1_000_000_000;

/// Every sample produced from a valid interval lies within this magnitude.
pub const MAX_SAMPLE: i64 = 3_000_000_000;

/// The integration interval `[a, b]`, in domain fixed-point units.
#[derive(Clone, Copy, Debug, PartialEq, Eq, Structural)]
pub struct Interval {
    pub a: i64,
    pub b: i64,
}

/// How the representative point of each subinterval is chosen.
#[derive(Clone, Copy, Debug, PartialEq, Eq, Structural)]
pub enum PickMode {
    Low,
    High,
    Random,
    Custom,
}

/// Why a configuration cannot be turned into a frame.
#[derive(Clone, Copy, Debug, PartialEq, Eq, Structural)]
pub enum ConfigError {
    /// The lower bound is not below the upper bound.
    DegenerateInterval,
    /// A bound lies beyond `MAX_COORD` in magnitude.
    OutOfRange,
    /// The partition count is zero or above `MAX_PARTITIONS`.
    BadPartitionCount,
    /// The custom fraction is above one.
    BadFraction,
    /// Random picking lacks a valid draw for some point.
    BadDraws,
    /// The zoom factor is zero.
    BadZoom,
}

impl Interval {
    pub open spec fn wf(self) -> bool {
        -MAX_COORD <= self.a < self.b <= MAX_COORD
    }

    /// Builds an interval, refusing crossed, equal or oversized bounds.
    pub fn new(a: i64, b: i64) -> (r: Result<Interval, ConfigError>)
        ensures
            r == (match interval_error(a, b) {
                Some(e) => Err(e),
                None => Ok(Interval { a, b }),
            }),
            r matches Ok(iv) ==> iv.wf(),
    {
        if a >= b {
            Err(ConfigError::DegenerateInterval)
        } else if a < -MAX_COORD || b > MAX_COORD {
            Err(ConfigError::OutOfRange)
        } else {
            Ok(Interval { a, b })
        }
    }

    /// Moves the lower bound to `a`, clamped so that it stays at least `gap`
    /// below the upper bound and within range.
    pub fn with_lower(self, a: i64, gap: i64) -> (r: Interval)
        requires
            self.wf(),
            0 < gap,
            self.b - gap >= -MAX_COORD,
        ensures
            r.wf(),
            r.b == self.b,
            r.a == clamp(a as int, -MAX_COORD as int, self.b - gap),
    {
        let hi = self.b - gap;
        let na = if a > hi { hi } else if a < -MAX_COORD { -MAX_COORD } else { a };
        Interval { a: na, b: self.b }
    }

    /// Moves the upper bound to `b`, clamped so that it stays at least `gap`
    /// above the lower bound and within range.
    pub fn with_upper(self, b: i64, gap: i64) -> (r: Interval)
        requires
            self.wf(),
            0 < gap,
            self.a + gap <= MAX_COORD,
        ensures
            r.wf(),
            r.a == self.a,
            r.b == clamp(b as int, self.a + gap, MAX_COORD as int),
    {
        let lo = self.a + gap;
        let nb = if b < lo { lo } else if b > MAX_COORD { MAX_COORD } else { b };
        Interval { a: self.a, b: nb }
    }
}

/// `v` limited to `[lo, hi]`.
pub open spec fn clamp(v: int, lo: int, hi: int) -> int {
    if v < lo { lo } else if v > hi { hi } else { v }
}

/// The first reason, if any, why `[a, b]` is not a valid interval.
pub open spec fn interval_error(a: i64, b: i64) -> Option<ConfigError> {
    if a >= b {
        Some(ConfigError::DegenerateInterval)
    } else if a < -MAX_COORD || b > MAX_COORD {
        Some(ConfigError::OutOfRange)
    } else {
        None
    }
}

/// The first reason, if any, why sampling cannot start.
pub open spec fn sample_error(iv: Interval, n: u32, custom: u32) -> Option<ConfigError> {
    if interval_error(iv.a, iv.b) is Some {
        interval_error(iv.a, iv.b)
    } else if n == 0 || n > MAX_PARTITIONS {
        Some(ConfigError::BadPartitionCount)
    } else if custom > FRACTION_ONE {
        Some(ConfigError::BadFraction)
    } else {
        None
    }
}

/// Boundary point `i` of the partition of `[a, b]` into `n` equal parts,
/// `a + i * (b - a) / n`, rounded down to a whole unit.
pub open spec fn boundary(a: int, b: int, n: int, i: int) -> int {
    a + (i * (b - a)) / n
}

/// The point `q / FRACTION_ONE` subinterval widths past `a`, rounded down.
pub open spec fn point_at(a: int, b: int, n: int, q: int) -> int {
    a + (q * (b - a)) / (n * FRACTION_ONE)
}

/// How far into subinterval `i` the picked point lies, in millionths of its width.
pub open spec fn pick_offset(mode: PickMode, custom: u32, draws: Seq<u32>, i: int) -> int {
    match mode {
        PickMode::Low => 0,
        PickMode::High => FRACTION_ONE as int,
        PickMode::Random => draws[i] as int,
        PickMode::Custom => custom as int,
    }
}

/// Sample `i` under the given strategy.
pub open spec fn sample_spec(
    iv: Interval,
    n: int,
    mode: PickMode,
    custom: u32,
    draws: Seq<u32>,
    i: int,
) -> int {
    point_at(iv.a as int, iv.b as int, n, i * FRACTION_ONE + pick_offset(mode, custom, draws, i))
}

/// Random picking has a draw below one whole width for each of the `n + 1` points.
pub open spec fn draws_ok(draws: Seq<u32>, n: int) -> bool {
    draws.len() > n && forall|j: int| 0 <= j <= n ==> #[trigger] draws[j] < FRACTION_ONE
}

/// The `n + 1` boundary points of the partition of `iv` into `n` parts.
pub fn boundaries(iv: Interval, n: u32) -> (r: Vec<i64>)
    requires
        iv.wf(),
        1 <= n <= MAX_PARTITIONS,
    ensures
        r@.len() == n + 1,
        forall|i: int| 0 <= i <= n ==> r@[i] == boundary(iv.a as int, iv.b as int, n as int, i),
{
    let w: i128 = iv.b as i128 - iv.a as i128;
    let mut r: Vec<i64> = Vec::new();
    let mut i: u32 = 0;
    while i <= n
        invariant
            iv.wf(),
            1 <= n <= MAX_PARTITIONS,
            i <= n + 1,
            w == iv.b - iv.a,
            r@.len() == i,
            forall|j: int| 0 <= j < i ==> r@[j] == boundary(iv.a as int, iv.b as int, n as int, j),
        decreases n + 1 - i,
    {
        proof {
            lemma_quotient_bounds(i as int, w as int, n as int);
        }
        let num: i128 = i as i128 * w;
        let off: i128 = num / (n as i128);
        r.push((iv.a as i128 + off) as i64);
        i = i + 1;
    }
    r
}

proof fn lemma_quotient_bounds(i: int, w: int, n: int)
    requires
        0 <= i <= n + 1,
        1 <= n <= MAX_PARTITIONS,
        0 < w <= 2 * MAX_COORD,
    ensures
        0 <= i * w <= (MAX_PARTITIONS + 1) * 2 * MAX_COORD,
        0 <= (i * w) / n <= 2 * w,
{
    assert(0 <= i * w <= (MAX_PARTITIONS + 1) * 2 * MAX_COORD) by (nonlinear_arith)
        requires 0 <= i <= n + 1, 1 <= n <= MAX_PARTITIONS, 0 < w <= 2 * MAX_COORD;
    assert(i * w <= 2 * w * n) by (nonlinear_arith)
        requires 0 <= i <= n + 1, 1 <= n, 0 < w;
    vstd::arithmetic::div_mod::lemma_div_is_ordered(i * w, 2 * w * n, n);
    vstd::arithmetic::div_mod::lemma_div_multiples_vanish(2 * w, n);
    assert(2 * w * n == n * (2 * w)) by (nonlinear_arith);
    vstd::arithmetic::div_mod::lemma_div_pos_is_pos(i * w, n);
}

/// The `n + 1` samples of `iv` under `mode`: sample `i` lies `offset / FRACTION_ONE`
/// of a subinterval width past boundary `i`, where the offset is `0` for `Low`,
/// one whole width for `High`, `custom` for `Custom` and `draws[i]` for `Random`.
pub fn sample_points(iv: Interval, n: u32, mode: PickMode, custom: u32, draws: &Vec<u32>) -> (r:
    Result<Vec<i64>, ConfigError>)
    ensures
        sample_error(iv, n, custom) is Some ==> r == Err::<Vec<i64>, ConfigError>(
            sample_error(iv, n, custom).unwrap(),
        ),
        sample_error(iv, n, custom) is None && mode == PickMode::Random && !draws_ok(draws@, n as int)
            ==> r == Err::<Vec<i64>, ConfigError>(ConfigError::BadDraws),
        sample_error(iv, n, custom) is None && (mode != PickMode::Random || draws_ok(draws@, n as int))
            ==> (r matches Ok(v) && samples_match(v@, iv, n as int, mode, custom, draws@)),
{
    if iv.a >= iv.b {
        return Err(ConfigError::DegenerateInterval);
    }
    if iv.a < -MAX_COORD || iv.b > MAX_COORD {
        return Err(ConfigError::OutOfRange);
    }
    if n == 0 || n > MAX_PARTITIONS {
        return Err(ConfigError::BadPartitionCount);
    }
    if custom > FRACTION_ONE {
        return Err(ConfigError::BadFraction);
    }
    let w: i128 = iv.b as i128 - iv.a as i128;
    let den: i128 = n as i128 * FRACTION_ONE as i128;
    let mut r: Vec<i64> = Vec::new();
    let mut i: u32 = 0;
    while i <= n
        invariant
            iv.wf(),
            1 <= n <= MAX_PARTITIONS,
            custom <= FRACTION_ONE,
            i <= n + 1,
            w == iv.b - iv.a,
            den == n * FRACTION_ONE,
            r@.len() == i,
            mode == PickMode::Random ==> forall|j: int| 0 <= j < i ==> #[trigger] draws@[j] < FRACTION_ONE,
            mode == PickMode::Random ==> draws@.len() >= i,
            forall|j: int| 0 <= j < i ==> r@[j] == sample_spec(iv, n as int, mode, custom, draws@, j),
        decreases n + 1 - i,
    {
        let offset: u32 = match mode {
            PickMode::Low => 0,
            PickMode::High => FRACTION_ONE,
            PickMode::Custom => custom,
            PickMode::Random => {
                if i as usize >= draws.len() || draws[i as usize] >= FRACTION_ONE {
                    proof {
                        if draws_ok(draws@, n as int) {
                            assert(draws@[i as int] < FRACTION_ONE);
                        }
                    }
                    return Err(ConfigError::BadDraws);
                }
                draws[i as usize]
            },
        };
        assert(i * FRACTION_ONE <= n * FRACTION_ONE) by (nonlinear_arith)
            requires i <= n;
        assert(offset == pick_offset(mode, custom, draws@, i as int) && offset <= FRACTION_ONE);
        let q: i128 = i as i128 * FRACTION_ONE as i128 + offset as i128;
        proof {
            lemma_point_bounds(q as int, w as int, n as int);
        }
        let off: i128 = (q * w) / den;
        r.push((iv.a as i128 + off) as i64);
        i = i + 1;
    }
    Ok(r)
}

/// `v` holds exactly the `n + 1` samples of `iv` under the strategy.
pub open spec fn samples_match(
    v: Seq<i64>,
    iv: Interval,
    n: int,
    mode: PickMode,
    custom: u32,
    draws: Seq<u32>,
) -> bool {
    &&& v.len() == n + 1
    &&& forall|i: int| 0 <= i <= n ==> v[i] == sample_spec(iv, n, mode, custom, draws, i)
}

proof fn lemma_point_bounds(q: int, w: int, n: int)
    requires
        0 <= q <= (n + 1) * FRACTION_ONE,
        1 <= n <= MAX_PARTITIONS,
        0 < w <= 2 * MAX_COORD,
    ensures
        0 <= q * w <= (MAX_PARTITIONS + 1) * FRACTION_ONE * 2 * MAX_COORD,
        0 <= (q * w) / (n * FRACTION_ONE) <= 2 * w,
{
    let d = n * FRACTION_ONE;
    assert(0 <= q * w <= (MAX_PARTITIONS + 1) * FRACTION_ONE * 2 * MAX_COORD) by (nonlinear_arith)
        requires 0 <= q <= (n + 1) * FRACTION_ONE, 1 <= n <= MAX_PARTITIONS, 0 < w <= 2 * MAX_COORD;
    assert(q * w <= (2 * w) * d) by (nonlinear_arith)
        requires 0 <= q <= (n + 1) * FRACTION_ONE, 1 <= n, 0 < w, d == n * FRACTION_ONE;
    assert(d > 0) by (nonlinear_arith) requires d == n * FRACTION_ONE, n >= 1;
    vstd::arithmetic::div_mod::lemma_div_is_ordered(q * w, (2 * w) * d, d);
    vstd::arithmetic::div_mod::lemma_div_multiples_vanish(2 * w, d);
    assert((2 * w) * d == d * (2 * w)) by (nonlinear_arith);
    vstd::arithmetic::div_mod::lemma_div_pos_is_pos(q * w, d);
}

proof fn lemma_whole_widths(a: int, b: int, n: int, j: int)
    requires
        a < b,
        n >= 1,
        j >= 0,
    ensures
        point_at(a, b, n, j * FRACTION_ONE) == boundary(a, b, n, j),
{
    let w = b - a;
    assert(j * w >= 0) by (nonlinear_arith)
        requires j >= 0, w > 0;
    vstd::arithmetic::div_mod::lemma_div_multiples_vanish_quotient(FRACTION_ONE as int, j * w, n);
    assert((j * FRACTION_ONE) * w == FRACTION_ONE * (j * w)) by (nonlinear_arith);
    assert(n * FRACTION_ONE == FRACTION_ONE * n) by (nonlinear_arith);
}

/// Every sample of a valid interval lies between its lower bound and one
/// interval width past its upper bound.
pub proof fn lemma_sample_range(iv: Interval, n: int, mode: PickMode, custom: u32, draws: Seq<u32>, i: int)
    requires
        iv.wf(),
        1 <= n <= MAX_PARTITIONS,
        custom <= FRACTION_ONE,
        mode == PickMode::Random ==> draws_ok(draws, n),
        0 <= i <= n,
    ensures
        iv.a <= sample_spec(iv, n, mode, custom, draws, i) <= 2 * iv.b - iv.a,
        -MAX_SAMPLE <= sample_spec(iv, n, mode, custom, draws, i) <= MAX_SAMPLE,
{
    let k = pick_offset(mode, custom, draws, i);
    assert(0 <= k <= FRACTION_ONE);
    assert(0 <= i * FRACTION_ONE <= n * FRACTION_ONE) by (nonlinear_arith)
        requires 0 <= i <= n;
    lemma_point_bounds(i * FRACTION_ONE + k, iv.b - iv.a, n);
}

/// Picking low yields exactly the boundary points; picking high yields each
/// boundary point moved one subinterval width along, which is the next boundary.
pub proof fn low_and_high_picks(iv: Interval, n: int, custom: u32, draws: Seq<u32>)
    requires
        iv.wf(),
        1 <= n,
    ensures
        forall|i: int|
            0 <= i <= n ==> #[trigger] sample_spec(iv, n, PickMode::Low, custom, draws, i)
                == boundary(iv.a as int, iv.b as int, n, i),
        forall|i: int|
            0 <= i <= n ==> #[trigger] sample_spec(iv, n, PickMode::High, custom, draws, i)
                == boundary(iv.a as int, iv.b as int, n, i + 1),
{
    assert forall|i: int| 0 <= i <= n implies #[trigger] sample_spec(iv, n, PickMode::Low, custom, draws, i)
        == boundary(iv.a as int, iv.b as int, n, i) by {
        lemma_whole_widths(iv.a as int, iv.b as int, n, i);
    }
    assert forall|i: int| 0 <= i <= n implies #[trigger] sample_spec(iv, n, PickMode::High, custom, draws, i)
        == boundary(iv.a as int, iv.b as int, n, i + 1) by {
        lemma_whole_widths(iv.a as int, iv.b as int, n, i + 1);
        assert(i * FRACTION_ONE + FRACTION_ONE == (i + 1) * FRACTION_ONE) by (nonlinear_arith);
    }
}

/// A random pick never falls below its boundary point and stays strictly
/// below the boundary point plus one subinterval width:
/// `boundary_i <= sample_i < a + (i + 1) * (b - a) / n`.
pub proof fn random_pick_within_subinterval(iv: Interval, n: int, custom: u32, draws: Seq<u32>)
    requires
        iv.wf(),
        1 <= n,
        draws_ok(draws, n),
    ensures
        forall|i: int|
            0 <= i <= n ==> boundary(iv.a as int, iv.b as int, n, i)
                <= #[trigger] sample_spec(iv, n, PickMode::Random, custom, draws, i),
        forall|i: int|
            0 <= i <= n ==> (#[trigger] sample_spec(iv, n, PickMode::Random, custom, draws, i) - iv.a) * n
                < (i + 1) * (iv.b - iv.a),
{
    assert forall|i: int| 0 <= i <= n implies boundary(iv.a as int, iv.b as int, n, i)
        <= #[trigger] sample_spec(iv, n, PickMode::Random, custom, draws, i)
        && (sample_spec(iv, n, PickMode::Random, custom, draws, i) - iv.a) * n < (i + 1) * (iv.b - iv.a) by {
        let w = iv.b - iv.a;
        let k = draws[i] as int;
        let q = i * FRACTION_ONE + k;
        let d = n * FRACTION_ONE;
        assert(d > 0) by (nonlinear_arith) requires n >= 1, d == n * FRACTION_ONE;
        lemma_whole_widths(iv.a as int, iv.b as int, n, i);
        assert((i * FRACTION_ONE) * w <= q * w) by (nonlinear_arith)
            requires q == i * FRACTION_ONE + k, k >= 0, w > 0;
        vstd::arithmetic::div_mod::lemma_div_is_ordered((i * FRACTION_ONE) * w, q * w, d);
        let s = (q * w) / d;
        vstd::arithmetic::div_mod::lemma_fundamental_div_mod(q * w, d);
        vstd::arithmetic::div_mod::lemma_mod_pos_bound(q * w, d);
        assert(n * s < (i + 1) * w) by (nonlinear_arith)
            requires q * w == d * s + (q * w) % d, (q * w) % d >= 0, d == n * FRACTION_ONE,
                q == i * FRACTION_ONE + k, k < FRACTION_ONE, w > 0;
        assert((sample_spec(iv, n, PickMode::Random, custom, draws, i) - iv.a) == s);
        assert(s * n == n * s) by (nonlinear_arith);
    }
}

/// A custom fraction of zero picks as `Low` does, and a custom fraction of
/// one picks as `High` does.
pub proof fn custom_pick_extremes(iv: Interval, n: int, draws: Seq<u32>)
    ensures
        forall|i: int|
            #[trigger] sample_spec(iv, n, PickMode::Custom, 0, draws, i)
                == sample_spec(iv, n, PickMode::Low, 0, draws, i),
        forall|i: int|
            #[trigger] sample_spec(iv, n, PickMode::Custom, FRACTION_ONE, draws, i)
                == sample_spec(iv, n, PickMode::High, FRACTION_ONE, draws, i),
{
}

} // verus!
