//! zlib compression and decompression, by the `flate2` crate.
use std::io::{Read, Write};
use vstd::prelude::*;

verus! {

/// What zlib decompression of `data` yields: the decompressed bytes, or
/// nothing when `data` does not start with a complete zlib stream.
pub uninterp spec fn zlib_inflate(data: Seq<u8>) -> Option<Seq<u8>>;

/// The zlib stream that compression of `raw` at the default level yields.
pub uninterp spec fn zlib_deflate(raw: Seq<u8>) -> Seq<u8>;

/// Decompresses a zlib stream.
///
/// Trusted: calls `flate2::read::ZlibDecoder::new(data)` and `read_to_end`.
/// Its result is named [`zlib_inflate`]; the text of the error is not stated.
#[verifier::external_body]
pub(crate) fn inflate(data: &[u8]) -> (res: Result<Vec<u8>, String>)
    ensures
        match zlib_inflate(data@) {
            Some(raw) => res matches Ok(v) && v@ == raw,
            None => res is Err,
        },
{
    let mut decoder = flate2::read::ZlibDecoder::new(data);
    let mut out = Vec::new();
    match decoder.read_to_end(&mut out) {
        Ok(_) => Ok(out),
        Err(e) => Err(e.to_string()),
    }
}

/// Compresses bytes into a zlib stream at the default level.
///
/// Trusted: calls `flate2::write::ZlibEncoder::new(Vec::new(), Compression::default())`,
/// `write_all` and `finish`. Writing into a `Vec` does not fail, so the
/// result is always a stream; it is named [`zlib_deflate`], and decompresses
/// back to its input (zlib is lossless).
#[verifier::external_body]
pub(crate) fn deflate(raw: &[u8]) -> (res: Result<Vec<u8>, String>)
    ensures
        res is Ok,
        res matches Ok(c) ==> c@ == zlib_deflate(raw@) && zlib_inflate(c@) == Some(raw@),
{
    let mut encoder = flate2::write::ZlibEncoder::new(Vec::new(), flate2::Compression::default());
    if let Err(e) = encoder.write_all(raw) {
        return Err(e.to_string());
    }
    encoder.finish().map_err(|e| e.to_string())
}

} // verus!
