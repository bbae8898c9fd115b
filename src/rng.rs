use vstd::prelude::*;

use rand::rngs::StdRng;
use rand::{Rng, SeedableRng};

verus! {

/// The seeded generator of rand; opaque here.
#[verifier::external_type_specification]
#[verifier::external_body]
pub struct ExStdRng(StdRng);

/// The state of a generator seeded with `seed`.
pub uninterp spec fn seeded(seed: u64) -> StdRng;

/// The value drawn from `[lo, hi)` by a generator in state `rng`, with the
/// generator's next state.
pub uninterp spec fn range_draw(rng: StdRng, lo: int, hi: int) -> (int, StdRng);

/// The outcome of a `num`-in-`den` chance drawn by a generator in state `rng`,
/// with the generator's next state.
pub uninterp spec fn ratio_draw(rng: StdRng, num: int, den: int) -> (bool, StdRng);

/// Relies on `StdRng::seed_from_u64`: the state depends on the seed alone.
#[verifier::external_body]
pub(crate) fn seed_rng(seed: u64) -> (r: StdRng)
    ensures
        r == seeded(seed),
{
    StdRng::seed_from_u64(seed)
}

/// Relies on `rand::random` for a seed from process randomness.
#[verifier::external_body]
pub(crate) fn random_seed() -> (r: u64) {
    rand::random()
}

/// Relies on `Rng::gen_range` over `lo..hi`: a value in the range, which
/// together with the next state depends on the state and the range alone.
/// The call panics on an empty range.
#[verifier::external_body]
pub(crate) fn gen_range_i32(rng: &mut StdRng, lo: i32, hi: i32) -> (r: i32)
    requires
        lo < hi,
    ensures
        lo <= r < hi,
        (r as int, *final(rng)) == range_draw(*old(rng), lo as int, hi as int),
{
    rng.gen_range(lo..hi)
}

/// Relies on `Rng::gen_ratio`: true with probability `num / den`; the outcome
/// and the next state depend on the state and the ratio alone. Certain when
/// `num == den` and impossible when `num == 0`. The call panics when
/// `den == 0` or `num > den`.
#[verifier::external_body]
pub(crate) fn gen_ratio(rng: &mut StdRng, num: u32, den: u32) -> (r: bool)
    requires
        0 < den,
        num <= den,
    ensures
        (r, *final(rng)) == ratio_draw(*old(rng), num as int, den as int),
        num == den ==> r,
        num == 0 ==> !r,
{
    rng.gen_ratio(num, den)
}

} // verus!
