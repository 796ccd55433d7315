//! Random bytes from the operating system.

use vstd::prelude::*;

verus! {

#[verifier::external_type_specification]
#[verifier::external_body]
pub struct ExRandomError(getrandom::Error);

/// Calls `getrandom::fill`, which overwrites the buffer with random bytes
/// from the system's source, or reports that the source failed. The
/// contract claims only what its documentation promises beyond that: an
/// empty buffer succeeds at once. Nothing is claimed of the bytes, or of
/// which outcome comes otherwise.
#[verifier::external_body]
fn fill_random<const N: usize>(buffer: &mut [u8; N]) -> (r: Result<(), getrandom::Error>)
    ensures
        N == 0 ==> r is Ok,
{
    getrandom::fill(buffer)
}

/// `N` random bytes, or `None` where the system's source of randomness
/// failed; zero bytes are always had.
pub fn csprng<const N: usize>() -> (r: Option<[u8; N]>)
    ensures
        N == 0 ==> r is Some,
{
    let mut buffer: [u8; N] = vstd::array::array_fill_for_copy_types(0u8);
    match fill_random(&mut buffer) {
        Ok(()) => Some(buffer),
        Err(_) => None,
    }
}

} // verus!
