//! The decompressor: turns a gzip-compressed byte stream into the raw binary
//! image, failing as a whole on a corrupt or truncated stream.

use vstd::prelude::*;

use crate::errors::ModError;

verus! {

/// What decoding `s` as a single gzip member yields: the inflated bytes, or
/// `None` when the stream's header, data or checksum is invalid or truncated.
/// Gzip decoding is a function of the input bytes alone.
pub uninterp spec fn inflate_of(s: Seq<u8>) -> Option<Seq<u8>>;

/// Relies on flate2's `read::GzDecoder` together with `Read::read_to_end`:
/// decoding a gzip stream either consumes the member to its end and returns
/// all inflated bytes, or reports an error; the outcome depends on the input
/// bytes alone.
#[verifier::external_body]
fn gunzip(data: &Vec<u8>) -> (r: Option<Vec<u8>>)
    ensures
        match r {
            Some(v) => inflate_of(data@) == Some(v@),
            None => inflate_of(data@) is None,
        },
{
    let mut decoder = flate2::read::GzDecoder::new(data.as_slice());
    let mut out: Vec<u8> = Vec::new();
    match std::io::Read::read_to_end(&mut decoder, &mut out) {
        Ok(_) => Some(out),
        Err(_) => None,
    }
}

/// Inflates the compressed stream `data` to completion;
/// `CorruptCompressionStream` when the stream cannot be decoded as a whole.
/// There is no partial result: decoding either fully succeeds or fails.
pub fn decompress(data: &Vec<u8>) -> (r: Result<Vec<u8>, ModError>)
    ensures
        match inflate_of(data@) {
            Some(u) => r matches Ok(v) && v@ == u,
            None => r matches Err(e) && e == ModError::CorruptCompressionStream,
        },
{
    match gunzip(data) {
        Some(v) => Ok(v),
        None => Err(ModError::CorruptCompressionStream),
    }
}

} // verus!
