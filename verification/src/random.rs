//! Random bytes.

use vstd::prelude::*;

verus! {

/// Calls `fill_bytes` (`rand::RngCore`) of `rand::thread_rng()`. Nothing is
/// claimed of the bytes.
#[verifier::external_body]
pub(crate) fn random_bytes<const N: usize>() -> (r: [u8; N]) {
    let mut r = [0u8; N];
    rand::RngCore::fill_bytes(&mut rand::thread_rng(), &mut r);
    r
}

} // verus!
