//! Compression at rest: zlib-wrapped deflate at the default level, through an
//! outside crate. Both directions are deterministic functions of their input
//! bytes, and decompression inverts compression.

use vstd::prelude::*;

use std::io::Read;
use std::io::Write;

verus! {

/// The zlib compression (default level) of a byte sequence.
pub uninterp spec fn zlib_deflate(data: Seq<u8>) -> Seq<u8>;

/// The zlib decompression of a byte sequence: the decompressed bytes, or `None`
/// when the input is not a valid zlib stream.
pub uninterp spec fn zlib_inflate(data: Seq<u8>) -> Option<Seq<u8>>;

/// Relies on flate2::write::ZlibEncoder at the default compression level:
/// deterministic zlib compression whose output decompresses to the input.
/// Writing into a Vec sink cannot fail.
#[verifier::external_body]
pub(crate) fn zlib_compress(data: &Vec<u8>) -> (r: Vec<u8>)
    ensures
        r@ == zlib_deflate(data@),
        zlib_inflate(r@) == Some(data@),
{
    let mut encoder = flate2::write::ZlibEncoder::new(Vec::new(), flate2::Compression::default());
    encoder.write_all(data.as_slice()).expect("writing to a Vec cannot fail");
    encoder.finish().expect("finishing a Vec-backed encoder cannot fail")
}

/// Relies on flate2::read::ZlibDecoder: deterministic zlib decompression,
/// failing exactly when the input is not a valid zlib stream.
#[verifier::external_body]
pub(crate) fn zlib_decompress(data: &Vec<u8>) -> (r: Option<Vec<u8>>)
    ensures
        match r {
            Some(v) => zlib_inflate(data@) == Some(v@),
            None => zlib_inflate(data@) == None::<Seq<u8>>,
        },
{
    let mut decoder = flate2::read::ZlibDecoder::new(data.as_slice());
    let mut out = Vec::new();
    match decoder.read_to_end(&mut out) {
        Ok(_) => Some(out),
        Err(_) => None,
    }
}

} // verus!
