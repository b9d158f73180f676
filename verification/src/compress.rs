//! The compression codec, as a filter on byte strings.

use crate::error::RstfError;
use std::io::Write;
use vstd::prelude::*;

verus! {

#[verifier::external_type_specification]
#[verifier::external_body]
pub struct ExIoError(std::io::Error);

/// What the zstd decoder makes of `data`, or `None` where it rejects it.
pub uninterp spec fn zstd_decoded(data: Seq<u8>) -> Option<Seq<u8>>;

/// Runs a `zstd::stream::write::Encoder` at `level`, with `workers` threads,
/// over `data` and finishes it.
///
/// Trusted: what comes out decodes to `data`.
#[verifier::external_body]
fn zstd_encode(data: &[u8], level: i32, workers: u32) -> (r: Result<Vec<u8>, std::io::Error>)
    ensures
        r matches Ok(compressed) ==> zstd_decoded(compressed@) == Some(data@),
{
    let mut encoder = zstd::stream::write::Encoder::new(Vec::new(), level)?;
    encoder.multithread(workers)?;
    encoder.write_all(data)?;
    encoder.finish()
}

/// Calls `zstd::stream::decode_all`.
///
/// Trusted: the call fails exactly where the decoder rejects `data`.
#[verifier::external_body]
fn zstd_decode(data: &[u8]) -> (r: Result<Vec<u8>, std::io::Error>)
    ensures
        match r {
            Ok(plain) => zstd_decoded(data@) == Some(plain@),
            Err(_) => zstd_decoded(data@) is None,
        },
{
    zstd::stream::decode_all(data)
}

/// Compresses `data` at the given effort `level`, on `workers` threads beside
/// the caller's; zero workers compress on the caller's thread.
pub fn compress(data: &[u8], level: i32, workers: u32) -> (r: Result<Vec<u8>, RstfError>)
    ensures
        match r {
            Ok(compressed) => zstd_decoded(compressed@) == Some(data@),
            Err(e) => e == RstfError::Compression,
        },
{
    match zstd_encode(data, level, workers) {
        Ok(compressed) => Ok(compressed),
        Err(_) => Err(RstfError::Compression),
    }
}

/// Decompresses `data`.
pub fn decompress(data: &[u8]) -> (r: Result<Vec<u8>, RstfError>)
    ensures
        match r {
            Ok(plain) => zstd_decoded(data@) == Some(plain@),
            Err(e) => e == RstfError::Compression && zstd_decoded(data@) is None,
        },
{
    match zstd_decode(data) {
        Ok(plain) => Ok(plain),
        Err(_) => Err(RstfError::Compression),
    }
}

} // verus!
