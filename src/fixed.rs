use vstd::prelude::*;

verus! {

/// Domain and range values are integers counted in millionths of one unit.
pub const DOMAIN_UNIT: i64 = 1_000_000;

/// A fraction of a subinterval is an integer counted in millionths.
pub const FRACTION_ONE: u32 = 1_000_000;

/// Floor division by a positive divisor.
pub fn floor_div(p: i128, q: i128) -> (r: i128)
    requires
        q > 0,
    ensures
        r == p / q,
{
    if p >= 0 {
        p / q
    } else {
        let t: i128 = (-(p + 1)) / q;
        proof {
            lemma_floor_negative(p as int, q as int);
        }
        -t - 1
    }
}

proof fn lemma_floor_negative(p: int, q: int)
    requires
        q > 0,
        p < 0,
    ensures
        p / q == -((-(p + 1)) / q) - 1,
{
    let m = -(p + 1);
    let t = m / q;
    let s = m % q;
    vstd::arithmetic::div_mod::lemma_fundamental_div_mod(m, q);
    assert(m == q * t + s);
    assert(0 <= s < q);
    assert(p == q * (-t - 1) + (q - 1 - s)) by (nonlinear_arith)
        requires m == q * t + s, p == -(m + 1);
    vstd::arithmetic::div_mod::lemma_fundamental_div_mod_converse(p, q, -t - 1, q - 1 - s);
}

} // verus!
