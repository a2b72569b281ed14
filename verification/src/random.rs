//! Random bytes from the operating system's generator, through `rand`.

use rand::RngCore;
use vstd::prelude::*;

verus! {

/// `rand::rng().fill_bytes` of the `rand` crate: fills `buf` from the
/// thread-local generator. Nothing is claimed of the bytes it writes.
#[verifier::external_body]
pub(crate) fn fill_random<const N: usize>(buf: &mut [u8; N]) {
    rand::rng().fill_bytes(buf)
}

} // verus!
