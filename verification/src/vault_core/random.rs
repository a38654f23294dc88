//! The operating system's random source.

use rand_core::RngCore;
use vstd::prelude::*;

verus! {

/// Calls `rand_core::OsRng.try_fill_bytes` on a zeroed buffer of `len`
/// bytes.
///
/// Claims only that a successful draw has `len` bytes; their values, and
/// whether the OS source succeeds, are left unsaid.
#[verifier::external_body]
pub(crate) fn os_random_bytes(len: usize) -> (r: Option<Vec<u8>>)
    ensures
        r matches Some(v) ==> v@.len() == len,
{
    let mut buf = vec![0u8; len];
    match rand_core::OsRng.try_fill_bytes(&mut buf) {
        Ok(()) => Some(buf),
        Err(_) => None,
    }
}

} // verus!
