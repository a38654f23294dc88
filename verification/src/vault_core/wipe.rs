//! Wiping secrets from memory with the `zeroize` crate, whose writes the
//! compiler does not optimise away.

use vstd::prelude::*;
use zeroize::Zeroize;

verus! {

/// Calls `<Vec<u8> as zeroize::Zeroize>::zeroize`: every byte, and the
/// spare capacity, is overwritten with zero and the vector is cleared.
///
/// Claims: the vector is empty afterwards.
#[verifier::external_body]
pub(crate) fn wipe_bytes(v: &mut Vec<u8>)
    ensures
        final(v)@.len() == 0,
{
    v.zeroize();
}

/// Calls `<[u8; 32] as zeroize::Zeroize>::zeroize`.
///
/// Claims: every byte is zero afterwards.
#[verifier::external_body]
pub(crate) fn wipe_key_bytes(k: &mut [u8; 32])
    ensures
        final(k)@ == Seq::new(32, |i: int| 0u8),
{
    k.zeroize();
}

} // verus!
