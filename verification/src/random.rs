//! Random bytes from the operating system.

use vstd::prelude::*;

verus! {

/// The error that `getrandom` reports when the system gives no random bytes.
#[verifier::external_type_specification]
#[verifier::external_body]
pub struct ExGetrandomError(getrandom::Error);

/// `getrandom::getrandom` fills the buffer it is given with random bytes, or reports an error and
/// leaves the buffer's contents open. An empty buffer is filled at once, without asking the
/// system. What the bytes are is left unsaid, and so is on which other calls the system gives any:
/// only the buffer's length is sure.
pub assume_specification[ getrandom::getrandom ](dest: &mut [u8]) -> (r: Result<
    (),
    getrandom::Error,
>)
    ensures
        final(dest)@.len() == old(dest)@.len(),
        old(dest)@.len() == 0 ==> r is Ok,
;

/// The system gave no random bytes.
#[derive(Debug, Clone, Copy, PartialEq, Eq, Structural)]
pub struct RandomUnavailable;

/// Generate random bytes of given length. No bytes at all can always be had.
pub fn get_random_bytes(len: usize) -> (r: Result<Vec<u8>, RandomUnavailable>)
    ensures
        r matches Ok(v) ==> v@.len() == len,
        len == 0 ==> r is Ok,
{
    let mut bytes: Vec<u8> = vec![0; len];
    match getrandom::getrandom(bytes.as_mut_slice()) {
        Ok(()) => Ok(bytes),
        Err(_) => Err(RandomUnavailable),
    }
}

} // verus!
