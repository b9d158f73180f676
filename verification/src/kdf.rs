//! From credentials to the key of a container.

use crate::error::{outcome, RstfError};
use crate::wipe::{wipe_bytes, wipe_key, wipe_string};
use argon2::Argon2;
use sha2::{Digest, Sha256};
use vstd::prelude::*;
use vstd::slice::slice_to_vec;
use vstd::utf8::encode_utf8;

verus! {

/// Bytes of salt at the head of a container.
pub const SALT_LEN: usize = 16;

/// The longest input that the key derivation takes.
pub const MAX_CREDENTIAL_LEN: usize = 0xffff_ffff;

#[verifier::external_type_specification]
#[verifier::external_body]
pub struct ExArgon2Error(argon2::Error);

/// The SHA-256 digest of `data`.
pub uninterp spec fn sha256_digest(data: Seq<u8>) -> Seq<u8>;

/// The 32 bytes that Argon2, with the parameters that `Argon2::default()`
/// stands for, derives from `password` and `salt`.
pub uninterp spec fn argon2_key(password: Seq<u8>, salt: Seq<u8>) -> Seq<u8>;

/// Calls `Digest::digest` of `Sha256`.
///
/// Trusted: the result is the digest of `data`.
#[verifier::external_body]
fn sha256(data: &[u8]) -> (digest: [u8; 32])
    ensures
        digest@ == sha256_digest(data@),
{
    Sha256::digest(data).into()
}

/// Calls `Argon2::hash_password_into` on `Argon2::default()`, for 32 bytes of
/// output.
///
/// Trusted: with a salt of 16 bytes the call is refused only for a password
/// longer than `MAX_PWD_LEN`, which is `0xFFFFFFFF`; the key depends on the
/// password and the salt alone.
#[verifier::external_body]
fn argon2_derive(password: &[u8], salt: &[u8; 16]) -> (r: Result<[u8; 32], argon2::Error>)
    ensures
        r is Ok <==> password@.len() <= MAX_CREDENTIAL_LEN,
        r matches Ok(key) ==> key@ == argon2_key(password@, salt@),
{
    let mut key = [0u8; 32];
    Argon2::default().hash_password_into(password, salt, &mut key)?;
    Ok(key)
}

/// What goes into the key derivation: the password's bytes, and behind them
/// the digest of the keyfile where there is one.
pub open spec fn combined_credentials(password: Seq<char>, keyfile: Option<Seq<u8>>) -> Seq<u8> {
    match keyfile {
        Some(contents) => encode_utf8(password) + sha256_digest(contents),
        None => encode_utf8(password),
    }
}

/// The key that the credentials give for a container with this salt. Only
/// credentials too long for the key derivation give none.
pub open spec fn derived_key(
    password: Seq<char>,
    keyfile: Option<Seq<u8>>,
    salt: Seq<u8>,
) -> Result<Seq<u8>, RstfError> {
    let combined = combined_credentials(password, keyfile);
    if combined.len() <= MAX_CREDENTIAL_LEN {
        Ok(argon2_key(combined, salt))
    } else {
        Err(RstfError::Credential)
    }
}

/// The contents of a keyfile as a plain value.
pub open spec fn keyfile_view(keyfile: Option<&[u8]>) -> Option<Seq<u8>> {
    match keyfile {
        Some(contents) => Some(contents@),
        None => None,
    }
}

/// Derives the key of a container from the password, the contents of the
/// keyfile if one is used, and the container's salt. The password is wiped
/// whether or not a key comes out, and so are the digest of the keyfile and
/// the buffer that held both.
pub fn process_credentials(password: &mut String, keyfile: Option<&[u8]>, salt: &[u8; 16]) -> (r:
    Result<[u8; 32], RstfError>)
    ensures
        final(password)@.len() == 0,
        outcome(r) == derived_key(old(password)@, keyfile_view(keyfile), salt@),
{
    let mut combined: Vec<u8> = slice_to_vec(password.as_str().as_bytes());
    assert(combined@ == encode_utf8(password@));
    match keyfile {
        Some(contents) => {
            let mut hash = sha256(contents);
            combined.extend_from_slice(hash.as_slice());
            assert(combined@ == encode_utf8(password@) + sha256_digest(contents@));
            wipe_key(&mut hash);
        },
        None => {},
    }
    assert(combined@ == combined_credentials(password@, keyfile_view(keyfile)));
    let derived = argon2_derive(combined.as_slice(), salt);
    wipe_string(password);
    wipe_bytes(&mut combined);
    match derived {
        Ok(key) => Ok(key),
        Err(_) => Err(RstfError::Credential),
    }
}

} // verus!
