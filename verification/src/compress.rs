//! Gzip compression of RPC bodies.

use std::io::{Read, Write};

use vstd::prelude::*;

verus! {

/// What `flate2` writes when it compresses `data` in the gzip format at its default level.
pub uninterp spec fn gzipped(data: Seq<u8>) -> Seq<u8>;

/// What `flate2` reads when it decompresses `data` as one gzip member; `None` when it reports an
/// error.
pub uninterp spec fn gunzipped(data: Seq<u8>) -> Option<Seq<u8>>;

/// Calls `flate2::write::GzEncoder` over a byte vector, at the default level: writes `data` and
/// finishes the stream. Claims that this succeeds, that what was written depends on `data` alone,
/// and that decompressing it gives `data` back. The encoder reports the errors of the writer below
/// it, and a byte vector takes everything without one.
#[verifier::external_body]
fn gzip_encode(data: &[u8]) -> (r: Option<Vec<u8>>)
    ensures
        match r {
            Some(z) => z@ == gzipped(data@) && gunzipped(z@) == Some(data@),
            None => false,
        },
{
    let mut encoder = flate2::write::GzEncoder::new(Vec::new(), flate2::Compression::default());
    encoder.write_all(data).ok()?;
    encoder.finish().ok()
}

/// Calls `flate2::read::GzDecoder` over `data` and reads to the end. Claims only that the outcome
/// depends on `data` alone.
#[verifier::external_body]
fn gzip_decode(data: &[u8]) -> (r: Option<Vec<u8>>)
    ensures
        match r {
            Some(p) => gunzipped(data@) == Some(p@),
            None => gunzipped(data@) is None,
        },
{
    let mut decoder = flate2::read::GzDecoder::new(data);
    let mut buf = Vec::new();
    decoder.read_to_end(&mut buf).ok()?;
    Some(buf)
}

/// `outcome` where there is one, else `data` itself.
pub open spec fn or_unchanged(outcome: Option<Seq<u8>>, data: Seq<u8>) -> Seq<u8> {
    match outcome {
        Some(b) => b,
        None => data,
    }
}

/// The outcome of a (de)compression of `data`, or a copy of `data` where there is none.
pub fn outcome_or_unchanged(outcome: Option<Vec<u8>>, data: &[u8]) -> (r: Vec<u8>)
    ensures
        outcome matches Some(b) ==> r@ == b@,
        outcome is None ==> r@ == data@,
{
    match outcome {
        Some(b) => b,
        None => crate::bytes::copy_bytes(data),
    }
}

/// Compress data with gzip. Returns compressed bytes, which `gunzip_maybe` turns into the data
/// again.
pub fn gzip_maybe(data: &[u8]) -> (r: Vec<u8>)
    ensures
        r@ == gzipped(data@),
        gunzipped(r@) == Some(data@),
        or_unchanged(gunzipped(r@), r@) == data@,
{
    let outcome = gzip_encode(data);
    outcome_or_unchanged(outcome, data)
}

/// Decompress gzip data. Returns decompressed bytes, or original if decompression fails.
pub fn gunzip_maybe(data: &[u8]) -> (r: Vec<u8>)
    ensures
        r@ == or_unchanged(gunzipped(data@), data@),
{
    let outcome = gzip_decode(data);
    outcome_or_unchanged(outcome, data)
}

} // verus!
