//! Wiping secrets from memory once they have served.

use crate::frame::KEY_LEN;
use vstd::prelude::*;
use zeroize::Zeroize;

verus! {

/// What a wiped key holds: zeros.
pub open spec fn wiped_key() -> Seq<u8> {
    Seq::new(KEY_LEN as nat, |i: int| 0u8)
}

/// Calls `Zeroize::zeroize` on the array.
///
/// Trusted: every byte is zero afterwards.
#[verifier::external_body]
pub(crate) fn wipe_key(key: &mut [u8; 32])
    ensures
        final(key)@ == wiped_key(),
{
    key.zeroize();
}

/// Calls `Zeroize::zeroize` on the vector.
///
/// Trusted: the bytes are overwritten with zeros and the vector is left
/// empty.
#[verifier::external_body]
pub(crate) fn wipe_bytes(bytes: &mut Vec<u8>)
    ensures
        final(bytes)@ == Seq::<u8>::empty(),
{
    bytes.zeroize();
}

/// Calls `Zeroize::zeroize` on the string.
///
/// Trusted: the bytes are overwritten with zeros and the string is left
/// empty.
#[verifier::external_body]
pub(crate) fn wipe_string(text: &mut String)
    ensures
        final(text)@ == Seq::<char>::empty(),
{
    text.zeroize();
}

} // verus!
