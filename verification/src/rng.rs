use vstd::prelude::*;

verus! {

/// Relies on `rand::random`: one fresh `u32`, uniformly distributed over the
/// whole type. Nothing can be promised of the value itself, so this wrapper
/// carries no `ensures`; every caller must hold for every possible word.
#[verifier::external_body]
pub(crate) fn random_u32() -> u32 {
    rand::random()
}

} // verus!
