use vstd::prelude::*;
use rand::rngs::{OsRng, StdRng};
use rand::{Rng, RngCore, SeedableRng};

verus! {

#[verifier::external_type_specification]
#[verifier::external_body]
pub struct ExStdRng(StdRng);

/// The run's single seeded random stream, consumed by AI planning.
pub struct TurnRng(pub StdRng);

/// The generator that `StdRng::seed_from_u64` builds from `seed`.
pub uninterp spec fn seeded_stream(seed: u64) -> StdRng;

/// Relies on `SeedableRng::seed_from_u64` for `StdRng`: the generator is a
/// function of the seed alone.
#[verifier::external_body]
pub(crate) fn rng_from_seed(seed: u64) -> (r: StdRng)
    ensures
        r == seeded_stream(seed),
{
    StdRng::seed_from_u64(seed)
}

/// What `gen_ratio(numerator, denominator)` returns on a generator in state
/// `rng`, with the state it leaves behind.
pub uninterp spec fn ratio_draw(rng: StdRng, numerator: u32, denominator: u32) -> (bool, StdRng);

/// What `gen_range(0..n)` returns on a generator in state `rng`, with the
/// state it leaves behind.
pub uninterp spec fn index_draw(rng: StdRng, n: usize) -> (usize, StdRng);

/// Relies on `Rng::gen_ratio`: a function of the generator's state and the
/// ratio; `true` with probability
/// `numerator / denominator`; always `false` when the numerator is 0 and
/// always `true` when it equals the denominator. It panics when the
/// denominator is 0 or below the numerator.
#[verifier::external_body]
pub(crate) fn roll_ratio(rng: &mut StdRng, numerator: u32, denominator: u32) -> (r: bool)
    requires
        0 < denominator,
        numerator <= denominator,
    ensures
        (r, *final(rng)) == ratio_draw(*old(rng), numerator, denominator),
        numerator == 0 ==> !r,
        numerator == denominator ==> r,
{
    rng.gen_ratio(numerator, denominator)
}

/// Relies on `Rng::gen_range` over `0..n`: an index below `n`, a function of
/// the generator's state and `n`. It panics on an empty range.
#[verifier::external_body]
pub(crate) fn draw_index(rng: &mut StdRng, n: usize) -> (r: usize)
    requires
        0 < n,
    ensures
        (r, *final(rng)) == index_draw(*old(rng), n),
        r < n,
{
    rng.gen_range(0..n)
}

/// Relies on `RngCore::try_fill_bytes` of `OsRng`: eight bytes from the
/// operating system read as a seed, or `None` when the system source fails.
/// Nothing is known of the value.
#[verifier::external_body]
pub(crate) fn os_seed() -> Option<u64> {
    let mut buf = [0u8; 8];
    match OsRng.try_fill_bytes(&mut buf) {
        Ok(()) => Some(u64::from_le_bytes(buf)),
        Err(_) => None,
    }
}

impl TurnRng {
    /// A stream seeded with `seed`.
    pub fn from_seed(seed: u64) -> (r: TurnRng)
        ensures
            r.0 == seeded_stream(seed),
    {
        TurnRng(rng_from_seed(seed))
    }
}

} // verus!
