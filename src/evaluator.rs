use vstd::prelude::*;
use crate::fixed::{floor_div, DOMAIN_UNIT};
use crate::sampling::MAX_SAMPLE;

verus! {

/// A scalar function of one domain value. `None` marks a point where the
/// function is undefined.
pub trait Evaluator {
    spec fn value_at(&self, x: i64) -> Option<i64>;

    fn evaluate(&self, x: i64) -> (r: Option<i64>)
        requires
            -MAX_SAMPLE <= x <= MAX_SAMPLE,
        ensures
            r == self.value_at(x),
    ;
}

/// `f(x) = -x^3 + 2x`, with the cube rounded down to a whole unit.
#[derive(Clone, Copy, Debug, PartialEq, Eq, Structural)]
pub struct Cubic;

/// `f(x) = c` everywhere.
#[derive(Clone, Copy, Debug, PartialEq, Eq, Structural)]
pub struct Constant {
    pub c: i64,
}

/// `-x^3 + 2x` on fixed-point values: `x` counts `1 / DOMAIN_UNIT` steps.
pub open spec fn cubic_value(x: int) -> int {
    (-(x * x * x)) / (DOMAIN_UNIT * DOMAIN_UNIT) + 2 * x
}

proof fn lemma_cubic_bounds(x: int)
    requires
        -MAX_SAMPLE <= x <= MAX_SAMPLE,
    ensures
        0 <= x * x <= 9_000_000_000_000_000_000,
        -27_000_000_000_000_000_000_000_000_000 <= -(x * x * x) <= 27_000_000_000_000_000_000_000_000_000,
        -27_000_000_000_000_000 - 6_000_000_000 <= cubic_value(x) <= 27_000_000_000_000_000 + 6_000_000_000,
{
    let b: int = 27_000_000_000_000_000_000_000_000_000;
    let q: int = DOMAIN_UNIT * DOMAIN_UNIT;
    assert(0 <= x * x <= 9_000_000_000_000_000_000) by (nonlinear_arith)
        requires -3_000_000_000 <= x <= 3_000_000_000;
    assert(-b <= x * x * x <= b) by (nonlinear_arith)
        requires -3_000_000_000 <= x <= 3_000_000_000, b == 27_000_000_000_000_000_000_000_000_000;
    vstd::arithmetic::div_mod::lemma_div_is_ordered(-(x * x * x), b, q);
    vstd::arithmetic::div_mod::lemma_div_is_ordered(-b, -(x * x * x), q);
    vstd::arithmetic::div_mod::lemma_div_multiples_vanish(27_000_000_000_000_000, q);
    vstd::arithmetic::div_mod::lemma_div_multiples_vanish(-27_000_000_000_000_000, q);
}

impl Evaluator for Cubic {
    open spec fn value_at(&self, x: i64) -> Option<i64> {
        Some(cubic_value(x as int) as i64)
    }

    fn evaluate(&self, x: i64) -> (r: Option<i64>) {
        let xx: i128 = x as i128;
        proof {
            lemma_cubic_bounds(xx as int);
        }
        let sq: i128 = xx * xx;
        let cu: i128 = sq * xx;
        let cube: i128 = floor_div(-cu, DOMAIN_UNIT as i128 * DOMAIN_UNIT as i128);
        Some((cube + 2 * xx) as i64)
    }
}

impl Evaluator for Constant {
    open spec fn value_at(&self, x: i64) -> Option<i64> {
        Some(self.c)
    }

    fn evaluate(&self, x: i64) -> (r: Option<i64>) {
        Some(self.c)
    }
}

/// `f` applied to each of `xs`.
pub fn evaluate_all<E: Evaluator>(f: &E, xs: &Vec<i64>) -> (r: Vec<Option<i64>>)
    requires
        forall|i: int| 0 <= i < xs@.len() ==> -MAX_SAMPLE <= #[trigger] xs@[i] <= MAX_SAMPLE,
    ensures
        r@.len() == xs@.len(),
        forall|i: int| 0 <= i < xs@.len() ==> r@[i] == f.value_at(#[trigger] xs@[i]),
{
    let mut r: Vec<Option<i64>> = Vec::new();
    let mut i: usize = 0;
    while i < xs.len()
        invariant
            i <= xs@.len(),
            r@.len() == i,
            forall|j: int| 0 <= j < xs@.len() ==> -MAX_SAMPLE <= #[trigger] xs@[j] <= MAX_SAMPLE,
            forall|j: int| 0 <= j < i ==> r@[j] == f.value_at(#[trigger] xs@[j]),
        decreases xs@.len() - i,
    {
        r.push(f.evaluate(xs[i]));
        i = i + 1;
    }
    r
}

} // verus!
