use vstd::prelude::*;
use vstd::string::{StrSliceExecFns, StringSliceAdditionalSpecFns};
use rand::rngs::StdRng;
use rand::{Rng, SeedableRng};
use crate::fixed::FRACTION_ONE;
use crate::sampling::{
    draws_ok, sample_error, sample_points, samples_match, Interval, PickMode, ConfigError,
    MAX_PARTITIONS,
};

verus! {

#[verifier::external_type_specification]
#[verifier::external_body]
pub struct ExStdRng(StdRng);

/// Relies on rand's `SeedableRng::seed_from_u64` for `StdRng`: a generator
/// whose output is fixed by the seed.
#[verifier::external_body]
fn seeded_rng(seed: u64) -> (r: StdRng) {
    StdRng::seed_from_u64(seed)
}

/// Relies on rand's `Rng::gen_range` over `0..bound`: a value below `bound`.
/// It panics on an empty range, which `bound > 0` rules out.
#[verifier::external_body]
fn draw_below(rng: &mut StdRng, bound: u32) -> (r: u32)
    requires
        bound > 0,
    ensures
        r < bound,
{
    rng.gen_range(0..bound)
}

/// The sum of the byte values of `s`.
pub open spec fn byte_sum(s: Seq<u8>) -> int
    decreases s.len(),
{
    if s.len() == 0 {
        0
    } else {
        byte_sum(s.drop_last()) + s.last()
    }
}

/// The seed that a text stands for: the sum of its byte values, modulo 2^64.
pub fn seed_from_text(s: &str) -> (r: u64)
    ensures
        r == byte_sum(s.spec_bytes()) % 0x1_0000_0000_0000_0000,
{
    let bytes = s.as_bytes_vec();
    let mut acc: u128 = 0;
    let mut i: usize = 0;
    while i < bytes.len()
        invariant
            bytes@ == s.spec_bytes(),
            i <= bytes@.len(),
            acc == byte_sum(bytes@.take(i as int)),
            acc <= 255 * i,
        decreases bytes@.len() - i,
    {
        assert(bytes@.take(i as int + 1).drop_last() =~= bytes@.take(i as int));
        acc = acc + bytes[i] as u128;
        i = i + 1;
    }
    assert(bytes@.take(i as int) =~= bytes@);
    (acc % 0x1_0000_0000_0000_0000) as u64
}

/// The samples of `iv` under `mode`. Under `Random` each point draws its
/// offset from a generator seeded by `seed_from_text(seed)`, in point order;
/// whatever the generator yields, the samples are those of some valid draws.
pub fn generate_samples(iv: Interval, n: u32, mode: PickMode, custom: u32, seed: &str) -> (r: Result<
    Vec<i64>,
    ConfigError,
>)
    ensures
        sample_error(iv, n, custom) is Some ==> r == Err::<Vec<i64>, ConfigError>(
            sample_error(iv, n, custom).unwrap(),
        ),
        sample_error(iv, n, custom) is None ==> (r matches Ok(v) && exists|d: Seq<u32>|
            draws_ok(d, n as int) && samples_match(v@, iv, n as int, mode, custom, d)),
{
    if n > MAX_PARTITIONS {
        return sample_points(iv, n, mode, custom, &Vec::new());
    }
    let mut draws: Vec<u32> = Vec::new();
    if mode == PickMode::Random {
        let mut rng = seeded_rng(seed_from_text(seed));
        let mut i: u32 = 0;
        while i <= n
            invariant
                n <= MAX_PARTITIONS,
                i <= n + 1,
                draws@.len() == i,
                forall|j: int| 0 <= j < i ==> #[trigger] draws@[j] < FRACTION_ONE,
            decreases n + 1 - i,
        {
            draws.push(draw_below(&mut rng, FRACTION_ONE));
            i = i + 1;
        }
    } else {
        let mut i: u32 = 0;
        while i <= n
            invariant
                n <= MAX_PARTITIONS,
                i <= n + 1,
                draws@.len() == i,
                forall|j: int| 0 <= j < i ==> #[trigger] draws@[j] < FRACTION_ONE,
            decreases n + 1 - i,
        {
            draws.push(0);
            i = i + 1;
        }
    }
    assert(draws_ok(draws@, n as int));
    let r = sample_points(iv, n, mode, custom, &draws);
    proof {
        if sample_error(iv, n, custom) is None {
            assert(r matches Ok(v) && samples_match(v@, iv, n as int, mode, custom, draws@));
        }
    }
    r
}

} // verus!
