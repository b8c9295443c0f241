//! Compression of image payloads: zlib deflate on the way out, inflate on the
//! way in, with the round trip `decode(encode(b)) == b` proved against the
//! trusted contracts of the compressor.

use vstd::prelude::*;
use std::io::Read;
use std::io::Write;

verus! {

/// Why a received message could not be decoded.
#[derive(Debug, PartialEq, Eq, Structural, Clone, Copy)]
pub enum CodecError {
    /// A text frame was not a well-formed change notification envelope.
    MalformedEnvelope,
    /// A binary frame was not a complete, well-formed compressed stream.
    CorruptPayload,
    /// A decompressed pixel payload did not match the announced dimensions.
    PayloadSizeMismatch,
}

/// The bytes that zlib compression at the default level produces for the
/// given input bytes.
pub uninterp spec fn deflate_of(bytes: Seq<u8>) -> Seq<u8>;

/// What zlib decompression gives for the given input: the decompressed bytes,
/// or nothing when the stream is truncated or malformed.
pub uninterp spec fn inflate_of(bytes: Seq<u8>) -> Option<Seq<u8>>;

/// Relies on flate2's `write::ZlibEncoder`: compresses the input at the
/// default level; decompressing its output yields the input bytes again.
/// Writing into a `Vec` sink cannot fail.
#[verifier::external_body]
fn zlib_compress(bytes: &Vec<u8>) -> (r: Vec<u8>)
    ensures
        r@ == deflate_of(bytes@),
        inflate_of(r@) == Some(bytes@),
{
    let mut encoder = flate2::write::ZlibEncoder::new(Vec::new(), flate2::Compression::default());
    encoder.write_all(&bytes[..]).expect("writing to a Vec sink cannot fail");
    encoder.finish().expect("writing to a Vec sink cannot fail")
}

/// Relies on flate2's `read::ZlibDecoder`: inflates a zlib stream, reporting
/// an error on a truncated or malformed stream.
#[verifier::external_body]
fn zlib_decompress(bytes: &Vec<u8>) -> (r: Result<Vec<u8>, CodecError>)
    ensures
        match r {
            Ok(v) => inflate_of(bytes@) == Some(v@),
            Err(e) => inflate_of(bytes@) is None && e == CodecError::CorruptPayload,
        },
{
    let mut decoder = flate2::read::ZlibDecoder::new(&bytes[..]);
    let mut out: Vec<u8> = Vec::new();
    match decoder.read_to_end(&mut out) {
        Ok(_) => Ok(out),
        Err(_) => Err(CodecError::CorruptPayload),
    }
}

/// Compresses a pixel payload for the wire.
pub fn encode(bytes: &Vec<u8>) -> (r: Vec<u8>)
    ensures
        r@ == deflate_of(bytes@),
        inflate_of(r@) == Some(bytes@),
{
    zlib_compress(bytes)
}

/// Decompresses a binary frame received from the wire. Returns
/// `CodecError::CorruptPayload` exactly when the stream does not inflate.
pub fn decode(bytes: &Vec<u8>) -> (r: Result<Vec<u8>, CodecError>)
    ensures
        match r {
            Ok(v) => inflate_of(bytes@) == Some(v@),
            Err(e) => inflate_of(bytes@) is None && e == CodecError::CorruptPayload,
        },
{
    zlib_decompress(bytes)
}

/// Law: decoding an encoded byte vector gives the original bytes back, for
/// every byte vector.
pub fn codec_round_trip(bytes: &Vec<u8>) -> (r: Vec<u8>)
    ensures
        r@ == bytes@,
{
    let compressed = encode(bytes);
    match decode(&compressed) {
        Ok(v) => v,
        Err(_) => unreached(),
    }
}

} // verus!
