//! Calls into the compression codecs and into UTF-8 decoding.
//!
//! DEFLATE is the one codec this build includes; the other methods the wire
//! format names are reported as unsupported.  Both directions of DEFLATE are
//! pure functions of their input bytes, so each result is given a name that
//! the callers' contracts speak of.

use vstd::prelude::*;

use vstd::utf8::{decode_utf8, valid_utf8};

use crate::error::ZipError;

verus! {

/// What raw-DEFLATE decompression yields on a byte sequence: the decoded
/// bytes, or nothing when the input is not a well-formed DEFLATE stream.
pub uninterp spec fn inflate_of(b: Seq<u8>) -> Option<Seq<u8>>;

/// What raw-DEFLATE compression at the default level yields on a byte
/// sequence.
pub uninterp spec fn deflate_of(b: Seq<u8>) -> Seq<u8>;

/// Relies on `async_compression::futures::bufread::DeflateDecoder` (raw
/// DEFLATE, as ZIP stores it): the outcome depends on the compressed bytes
/// alone.
#[verifier::external_body]
pub fn inflate(data: &[u8]) -> (r: Result<Vec<u8>, ZipError>)
    ensures
        match r {
            Ok(v) => inflate_of(data@) == Some(v@),
            Err(e) => inflate_of(data@) is None && (e matches ZipError::UpstreamReadError(_)),
        },
{
    let mut decoder = async_compression::futures::bufread::DeflateDecoder::new(data);
    let mut out = Vec::new();
    match futures::executor::block_on(futures::io::AsyncReadExt::read_to_end(&mut decoder, &mut out)) {
        Ok(_) => Ok(out),
        Err(e) => Err(ZipError::UpstreamReadError(e)),
    }
}

/// Relies on `async_compression::futures::write::DeflateEncoder`: the
/// compressed bytes depend on the raw bytes alone, at the default level,
/// and encoding into an in-memory sink always succeeds — the driver hands
/// the codec output room on every step, and the `Vec` sink cannot fail.
/// The decoder of the same codec pair gives the raw bytes back.
#[verifier::external_body]
pub fn deflate(data: &[u8]) -> (r: Result<Vec<u8>, ZipError>)
    ensures
        r is Ok,
        r matches Ok(v) ==> v@ == deflate_of(data@) && inflate_of(v@) == Some(data@),
{
    let mut encoder = async_compression::futures::write::DeflateEncoder::new(Vec::new());
    if let Err(e) = futures::executor::block_on(futures::io::AsyncWriteExt::write_all(&mut encoder, data)) {
        return Err(ZipError::UpstreamReadError(e));
    }
    match futures::executor::block_on(futures::io::AsyncWriteExt::close(&mut encoder)) {
        Ok(()) => Ok(encoder.into_inner()),
        Err(e) => Err(ZipError::UpstreamReadError(e)),
    }
}

/// Relies on `String::from_utf8`: it accepts exactly the valid UTF-8 byte
/// sequences and decodes them, as `vstd::utf8` models decoding.
#[verifier::external_body]
pub fn bytes_to_string(v: Vec<u8>) -> (r: Result<String, ZipError>)
    ensures
        match r {
            Ok(s) => valid_utf8(v@) && s@ == decode_utf8(v@),
            Err(e) => !valid_utf8(v@) && (e matches ZipError::UpstreamReadError(_)),
        },
{
    match String::from_utf8(v) {
        Ok(s) => Ok(s),
        Err(e) => Err(ZipError::UpstreamReadError(std::io::Error::new(std::io::ErrorKind::InvalidData, e))),
    }
}

/// Relies on `std::io::Error::new`: the error reported when an in-memory
/// byte source runs out of bytes.
#[verifier::external_body]
pub fn eof_error() -> (e: ZipError)
    ensures
        e matches ZipError::UpstreamReadError(_),
{
    ZipError::UpstreamReadError(std::io::Error::new(std::io::ErrorKind::UnexpectedEof, "unexpected end of data"))
}

} // verus!
