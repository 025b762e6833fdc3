//! Gzip compression of whole log files, through flate2.
use flate2::read::GzDecoder;
use flate2::write::GzEncoder;
use flate2::Compression;
use std::io::{Read, Write};
use vstd::prelude::*;

use crate::error::{IoError, IoErrorKind};

verus! {

/// What flate2's gzip decoder, read to the end with `read_to_end`, makes of
/// `data`: the bytes that it yields before it stops, and the kind and the
/// message of the error that stopped it, if one did.
pub uninterp spec fn gunzip(data: Seq<u8>) -> (Seq<u8>, Option<(IoErrorKind, Seq<char>)>);

/// The bytes that flate2's gzip encoder, at the default compression level,
/// produces for `data`.
pub uninterp spec fn gzip(data: Seq<u8>) -> Seq<u8>;

/// The kind and the message of an optional error.
pub open spec fn error_view(e: Option<IoError>) -> Option<(IoErrorKind, Seq<char>)> {
    match e {
        Some(e) => Some((e.kind, e.message@)),
        None => None,
    }
}

/// Decompresses `data` with flate2's `read::GzDecoder` and `read_to_end`,
/// which keeps the bytes that were read before an error. The contract claims
/// that what comes back, bytes and error, is `gunzip(data)`.
#[verifier::external_body]
pub(crate) fn gunzip_bytes(data: &[u8]) -> (r: (Vec<u8>, Option<IoError>))
    ensures
        gunzip(data@) == (r.0@, error_view(r.1)),
{
    let mut out = Vec::new();
    match GzDecoder::new(data).read_to_end(&mut out) {
        Ok(_) => (out, None),
        Err(e) => {
            let kind = match e.kind() {
                std::io::ErrorKind::UnexpectedEof => IoErrorKind::UnexpectedEof,
                _ => IoErrorKind::Other,
            };
            (out, Some(IoError { kind, message: e.to_string() }))
        },
    }
}

/// Compresses `data` with flate2's `write::GzEncoder` at the default level
/// (`write_all`, then `finish`). The contract claims that a success hands
/// back `gzip(data)`, and that flate2's `read::GzDecoder` decodes it back to
/// `data` (the pairing that the round-trip tests in flate2's `gz` module
/// check); it does not claim that the encoder succeeds.
#[verifier::external_body]
pub(crate) fn gzip_bytes(data: &[u8]) -> (r: Result<Vec<u8>, IoError>)
    ensures
        r matches Ok(v) ==> v@ == gzip(data@) && gunzip(v@) == (data@, None::<(IoErrorKind, Seq<char>)>),
{
    let mut encoder = GzEncoder::new(Vec::new(), Compression::default());
    let finished = match encoder.write_all(data) {
        Ok(()) => encoder.finish(),
        Err(e) => Err(e),
    };
    match finished {
        Ok(v) => Ok(v),
        Err(e) => Err(IoError { kind: IoErrorKind::Other, message: e.to_string() }),
    }
}

} // verus!
