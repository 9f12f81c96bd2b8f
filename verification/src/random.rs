use vstd::prelude::*;
use rand::RngCore;

verus! {

/// Fills an array from `rand::thread_rng()` with `RngCore::fill_bytes`.
/// Nothing is promised of the bytes.
#[verifier::external_body]
pub(crate) fn random_array<const N: usize>() -> [u8; N] {
    let mut bytes = [0u8; N];
    rand::thread_rng().fill_bytes(&mut bytes);
    bytes
}

/// A random 64-bit number from `rand::random`. Nothing is promised of it.
#[verifier::external_body]
pub(crate) fn random_u64() -> u64 {
    rand::random::<u64>()
}

} // verus!
