//! The gzip codec, used as an opaque compressor during response assembly.

use std::io::Write;
use vstd::prelude::*;

verus! {

/// Relies on flate2's `write::GzEncoder` at `Compression::default()`:
/// writing the input and finishing the stream yields the gzip-compressed
/// bytes. Nothing is assumed about the compressed form; every caller treats
/// the result as opaque bytes.
#[verifier::external_body]
pub fn gzip_compress(data: &Vec<u8>) -> Vec<u8> {
    let mut encoder = flate2::write::GzEncoder::new(Vec::new(), flate2::Compression::default());
    encoder.write_all(data.as_slice()).expect("gzip encoding failed");
    encoder.finish().expect("gzip encoding failed")
}

} // verus!
