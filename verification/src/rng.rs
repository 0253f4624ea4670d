//! The engine's random stream: a seedable generator from the `fastrand`
//! crate, consumed through a few small trusted wrappers. Each wrapper states
//! only what holds of every outcome (the range of the draw); no draw is
//! promised to be reproducible in the contracts, so everything proved about
//! the simulation holds whatever the stream returns.

use vstd::prelude::*;

verus! {

#[verifier::external_type_specification]
#[verifier::external_body]
pub struct ExRng(fastrand::Rng);

/// Relies on `fastrand::Rng::with_seed`: builds a generator whose state is
/// exactly the given seed.
#[verifier::external_body]
pub(crate) fn rng_from_seed(seed: u64) -> fastrand::Rng {
    fastrand::Rng::with_seed(seed)
}

/// Relies on `fastrand::Rng::u8`: a draw from `lo..hi`, which panics only on
/// an empty range and otherwise stays inside it.
#[verifier::external_body]
pub(crate) fn rng_u8(rng: &mut fastrand::Rng, lo: u8, hi: u8) -> (r: u8)
    requires
        lo < hi,
    ensures
        lo <= r < hi,
{
    rng.u8(lo..hi)
}

/// Relies on `fastrand::Rng::bool`: a draw of either truth value.
#[verifier::external_body]
pub(crate) fn rng_bool(rng: &mut fastrand::Rng) -> bool {
    rng.bool()
}

/// Relies on `fastrand::Rng::i32`: a draw from the inclusive range
/// `lo..=hi`, which panics only on an empty range and otherwise stays
/// inside it.
#[verifier::external_body]
pub(crate) fn rng_i32(rng: &mut fastrand::Rng, lo: i32, hi: i32) -> (r: i32)
    requires
        lo <= hi,
    ensures
        lo <= r <= hi,
{
    rng.i32(lo..=hi)
}

/// Relies on `fastrand::Rng::shuffle`: a permutation of the slice in place
/// (it only ever exchanges pairs of elements).
#[verifier::external_body]
pub(crate) fn rng_shuffle(rng: &mut fastrand::Rng, v: &mut Vec<crate::vector::Vector>)
    ensures
        final(v)@.to_multiset() == old(v)@.to_multiset(),
        final(v)@.len() == old(v)@.len(),
{
    rng.shuffle(v.as_mut_slice())
}

} // verus!
