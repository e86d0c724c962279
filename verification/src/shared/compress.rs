//! Brotli compression of what goes over the air.

use vstd::prelude::*;
use crate::shared::codec::{
    brotli_decode, brotli_decoded, decoded_to, encode_stream, is_encoding,
};

verus! {

/// Why compressing or decompressing failed.
#[derive(Debug, Clone)]
pub enum CompressionError {
    CompressFailed(String),
    DecompressFailed(String),
}

impl CompressionError {
    /// The message for the operator.
    pub open spec fn text(self) -> Seq<char> {
        match self {
            CompressionError::CompressFailed(e) => "Compression failed: "@ + e@,
            CompressionError::DecompressFailed(e) => "Decompression failed: "@ + e@,
        }
    }

    /// The message for the operator.
    pub fn message(&self) -> (r: String)
        ensures
            r@ == self.text(),
    {
        match self {
            CompressionError::CompressFailed(e) => "Compression failed: ".to_owned().concat(
                e.as_str(),
            ),
            CompressionError::DecompressFailed(e) => "Decompression failed: ".to_owned().concat(
                e.as_str(),
            ),
        }
    }
}

/// Compresses `data` at `quality`: what comes back is what the encoder gave, and
/// a stream decompresses to `data`.
pub fn brotli_compress(data: &[u8], quality: u32) -> (r: Result<Vec<u8>, CompressionError>)
    ensures
        match r {
            Ok(v) => is_encoding(data@, quality, Ok(v@)) && brotli_decoded(v@) == decoded_to(data@),
            Err(CompressionError::CompressFailed(m)) => is_encoding(data@, quality, Err(m@)),
            Err(CompressionError::DecompressFailed(_)) => false,
        },
{
    match encode_stream(data, quality) {
        Ok(v) => Ok(v),
        Err(e) => Err(CompressionError::CompressFailed(e)),
    }
}

/// Decompresses `data`.
pub fn brotli_decompress(data: &[u8]) -> (r: Result<Vec<u8>, CompressionError>)
    ensures
        match brotli_decoded(data@) {
            Ok(c) => r matches Ok(v) && v@ == c,
            Err(e) => r matches Err(CompressionError::DecompressFailed(m)) && m@ == e,
        },
{
    match brotli_decode(data) {
        Ok(v) => Ok(v),
        Err(e) => Err(CompressionError::DecompressFailed(e)),
    }
}

} // verus!
