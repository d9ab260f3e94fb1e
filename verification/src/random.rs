//! The random choices of the library, made by the `rand` crate.
use vstd::prelude::*;

use rand::rngs::{OsRng, StdRng};
use rand::seq::SliceRandom;
use rand::SeedableRng;

verus! {

/// `rand`'s standard generator, carried through verified code unopened.
#[verifier::external_type_specification]
#[verifier::external_body]
pub struct ExStdRng(rand::rngs::StdRng);

/// Calls `SeedableRng::from_rng` for `StdRng` with the operating system's
/// generator `OsRng`. That call reports a failure to obtain entropy as an error
/// rather than panicking; the error becomes `None`. Nothing is stated of the
/// generator.
#[verifier::external_body]
fn rng_from_os() -> Option<StdRng> {
    StdRng::from_rng(OsRng).ok()
}

/// Calls `SeedableRng::seed_from_u64` for `StdRng`, which expands `seed` into a
/// full seed and never fails. Nothing is stated of the generator.
#[verifier::external_body]
fn seeded_rng(seed: u64) -> StdRng {
    StdRng::seed_from_u64(seed)
}

/// A generator seeded by the operating system, or, when the system cannot supply
/// entropy, one seeded with 0.
pub(crate) fn new_rng() -> StdRng {
    match rng_from_os() {
        Some(rng) => rng,
        None => seeded_rng(0),
    }
}

/// Calls `SliceRandom::choose` on `columns`. Its documentation promises `None` exactly
/// for an empty slice and otherwise one of the slice's elements; which one depends on
/// the generator and is not stated.
#[verifier::external_body]
pub(crate) fn choose_column(columns: &Vec<usize>, rng: &mut StdRng) -> (r: Option<usize>)
    ensures
        (columns@.len() == 0) == (r is None),
        r matches Some(c) ==> columns@.contains(c),
{
    columns.as_slice().choose(rng).copied()
}

} // verus!
