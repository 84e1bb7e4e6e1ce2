//! Raw DEFLATE decoding, done by the `flate2` crate.

use vstd::prelude::*;
use std::io::Read;
use crate::RootIoError;

verus! {

/// What decoding `input` as a raw DEFLATE stream yields: the decoded bytes
/// when `input` starts with a complete, well-formed stream, and nothing when
/// the stream is corrupt or cut off.
pub uninterp spec fn inflated(input: Seq<u8>) -> Option<Seq<u8>>;

/// Drains a `flate2::read::DeflateDecoder` that reads from `input`.
/// Trusted: the outcome depends on the bytes of `input` alone; the decoded
/// bytes come back when the decoder reaches the end of the stream, and its
/// error when it reports one.
#[verifier::external_body]
pub(crate) fn inflate(input: &[u8]) -> (r: Result<Vec<u8>, std::io::Error>)
    ensures
        match r {
            Ok(out) => inflated(input@) == Some(out@),
            Err(_) => inflated(input@) is None,
        },
{
    let mut out = Vec::new();
    match flate2::read::DeflateDecoder::new(input).read_to_end(&mut out) {
        Ok(_) => Ok(out),
        Err(e) => Err(e),
    }
}

/// What a finished decoder run means to a caller of this crate: the decoded
/// bytes as they are, or the decoder's error as an I/O failure.
pub fn decoded(run: Result<Vec<u8>, std::io::Error>) -> (r: Result<Vec<u8>, RootIoError>)
    ensures
        match run {
            Ok(out) => r == Ok::<Vec<u8>, RootIoError>(out),
            Err(e) => r == Err::<Vec<u8>, RootIoError>(RootIoError::IOError(e)),
        },
{
    match run {
        Ok(out) => Ok(out),
        Err(e) => Err(RootIoError::from(e)),
    }
}

} // verus!
