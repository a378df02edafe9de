use crate::error::Error;
use std::io::{Read, Write};
use vstd::prelude::*;

verus! {

/// The zlib stream that the encoder makes of `data` at its fast level,
/// `None` where it reports an error.
pub uninterp spec fn zlib_deflated(data: Seq<u8>) -> Option<Seq<u8>>;

/// The data that the decoder reads from `stream`, `None` where it reports
/// an error, as it does for bytes that are cut short or are not zlib.
pub uninterp spec fn zlib_inflated(stream: Seq<u8>) -> Option<Seq<u8>>;

/// Runs `flate2::write::ZlibEncoder` at `Compression::fast()` over `data`:
/// `write_all`, then `finish`, with an error of either as `None`. Trusted,
/// not proved: the outcome depends on `data` alone, and a stream that the
/// encoder hands out is one that the decoder reads back as `data`.
#[verifier::external_body]
fn zlib_encode(data: &[u8]) -> (out: Option<Vec<u8>>)
    ensures
        zlib_deflated(data@) == match out {
            Some(stream) => Some(stream@),
            None => None,
        },
        out matches Some(stream) ==> zlib_inflated(stream@) == Some(data@),
{
    let mut encoder = flate2::write::ZlibEncoder::new(Vec::new(), flate2::Compression::fast());
    match encoder.write_all(data) {
        Ok(()) => match encoder.finish() {
            Ok(stream) => Some(stream),
            Err(_) => None,
        },
        Err(_) => None,
    }
}

/// Runs `flate2::read::ZlibDecoder` over `stream` with `read_to_end`, with
/// an error as `None`. Trusted, not proved: the outcome depends on
/// `stream` alone.
#[verifier::external_body]
fn zlib_decode(stream: &[u8]) -> (out: Option<Vec<u8>>)
    ensures
        zlib_inflated(stream@) == match out {
            Some(data) => Some(data@),
            None => None,
        },
{
    let mut decoder = flate2::read::ZlibDecoder::new(stream);
    let mut data = Vec::new();
    match decoder.read_to_end(&mut data) {
        Ok(_) => Some(data),
        Err(_) => None,
    }
}

/// What `compress` returns for each outcome of the encoder: the stream, or
/// an I/O failure.
pub open spec fn compressed(data: Seq<u8>) -> Result<Seq<u8>, Error> {
    match zlib_deflated(data) {
        Some(stream) => Ok(stream),
        None => Err(Error::IoFailure),
    }
}

/// What `decompress` returns for each outcome of the decoder: the data, or
/// that the bytes are corrupt.
pub open spec fn decompressed(stream: Seq<u8>) -> Result<Seq<u8>, Error> {
    match zlib_inflated(stream) {
        Some(data) => Ok(data),
        None => Err(Error::Corrupt),
    }
}

/// Compresses `data` into a zlib stream. A stream that comes back
/// decompresses to `data`.
pub fn compress(data: &[u8]) -> (r: Result<Vec<u8>, Error>)
    ensures
        match r {
            Ok(stream) => compressed(data@) == Ok::<Seq<u8>, Error>(stream@) && decompressed(
                stream@,
            ) == Ok::<Seq<u8>, Error>(data@),
            Err(e) => compressed(data@) == Err::<Seq<u8>, Error>(e),
        },
{
    match zlib_encode(data) {
        Some(stream) => Ok(stream),
        None => Err(Error::IoFailure),
    }
}

/// Decompresses a zlib stream. Bytes that are cut short, or are no zlib
/// stream at all, are corrupt.
pub fn decompress(stream: &[u8]) -> (r: Result<Vec<u8>, Error>)
    ensures
        match r {
            Ok(data) => decompressed(stream@) == Ok::<Seq<u8>, Error>(data@),
            Err(e) => decompressed(stream@) == Err::<Seq<u8>, Error>(e),
        },
{
    match zlib_decode(stream) {
        Some(data) => Ok(data),
        None => Err(Error::Corrupt),
    }
}

} // verus!
