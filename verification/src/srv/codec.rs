//! The gzip and brotli codecs, as the crates `flate2` and `brotli` provide them.
//!
//! What a codec makes of a byte string is named, not defined: [`gzip_encoded`],
//! [`gzip_decoded`], [`brotli_encoded`] and [`brotli_decoded`]. Of what an encoder hands
//! back this much is stated besides: it is not empty, and it decodes to what the encoder
//! was given.

use brotli::CompressorWriter;
use brotli::Decompressor;
use flate2::read::GzDecoder;
use flate2::write::GzEncoder;
use flate2::Compression;
use std::io::Read;
use std::io::Write;
use vstd::prelude::*;

verus! {

#[verifier::external_type_specification]
#[verifier::external_body]
pub struct ExIoError(std::io::Error);

/// The size of the buffer that the brotli codec works with.
pub const BROTLI_BUFFER_SIZE: usize = 4096;

/// The quality at which brotli encodes: the best.
pub const BROTLI_QUALITY: u32 = 11;

/// The logarithm of the size of the window that brotli encodes with.
pub const BROTLI_WINDOW: u32 = 22;

/// The gzip stream that the encoder of `flate2` makes of `data` at its default level, or
/// `None` where it reports an error.
pub uninterp spec fn gzip_encoded(data: Seq<u8>) -> Option<Seq<u8>>;

/// The brotli stream that the encoder makes of `data` with a buffer of `buffer_size`
/// bytes, the quality `quality` and a window of 2^`lgwin` bytes, or `None` where it
/// reports an error.
pub uninterp spec fn brotli_encoded(data: Seq<u8>, buffer_size: usize, quality: u32, lgwin: u32) -> Option<
    Seq<u8>,
>;

/// The bytes that the gzip decoder of `flate2` reads out of `data`, or `None` where it
/// reports an error.
pub uninterp spec fn gzip_decoded(data: Seq<u8>) -> Option<Seq<u8>>;

/// The bytes that the brotli decoder reads out of `data`, or `None` where it reports an
/// error.
pub uninterp spec fn brotli_decoded(data: Seq<u8>) -> Option<Seq<u8>>;

/// `GzEncoder` at the default level, written to once and finished: a gzip stream, which
/// starts with a header and so is never empty, and which decodes to `data`.
#[verifier::external_body]
pub(crate) fn encode_gzip(data: &[u8]) -> (encoded: Result<Vec<u8>, std::io::Error>)
    ensures
        match gzip_encoded(data@) {
            Some(stream) => encoded matches Ok(bytes) && bytes@ == stream,
            None => encoded is Err,
        },
        encoded matches Ok(bytes) ==> bytes@.len() > 0 && gzip_decoded(bytes@) == Some(data@),
{
    let mut encoder = GzEncoder::new(Vec::new(), Compression::default());
    encoder.write_all(data)?;
    encoder.finish()
}

/// `GzDecoder`, read to its end.
#[verifier::external_body]
pub(crate) fn decode_gzip(data: &[u8]) -> (decoded: Result<Vec<u8>, std::io::Error>)
    ensures
        match gzip_decoded(data@) {
            Some(bytes) => decoded matches Ok(d) && d@ == bytes,
            None => decoded is Err,
        },
{
    let mut decoder = GzDecoder::new(data);
    let mut decompressed = Vec::new();
    decoder.read_to_end(&mut decompressed)?;
    Ok(decompressed)
}

/// `brotli::CompressorWriter` with a buffer of `buffer_size` bytes, the quality `quality`
/// and a window of 2^`lgwin` bytes, written to once and closed: a brotli stream, which is
/// never empty, and which decodes to `data`.
#[verifier::external_body]
pub(crate) fn encode_brotli(data: &[u8], buffer_size: usize, quality: u32, lgwin: u32) -> (encoded:
    Result<Vec<u8>, std::io::Error>)
    requires
        0 < buffer_size <= 0x10000,
        quality <= 11,
        10 <= lgwin <= 24,
    ensures
        match brotli_encoded(data@, buffer_size, quality, lgwin) {
            Some(stream) => encoded matches Ok(bytes) && bytes@ == stream,
            None => encoded is Err,
        },
        encoded matches Ok(bytes) ==> bytes@.len() > 0 && brotli_decoded(bytes@) == Some(data@),
{
    let mut encoder = CompressorWriter::new(Vec::new(), buffer_size, quality, lgwin);
    encoder.write_all(data)?;
    Ok(encoder.into_inner())
}

/// `brotli::Decompressor` with a buffer of 4096 bytes, read to its end.
#[verifier::external_body]
pub(crate) fn decode_brotli(data: &[u8]) -> (decoded: Result<Vec<u8>, std::io::Error>)
    ensures
        match brotli_decoded(data@) {
            Some(bytes) => decoded matches Ok(d) && d@ == bytes,
            None => decoded is Err,
        },
{
    let mut decoder = Decompressor::new(data, 4096);
    let mut decompressed = Vec::new();
    decoder.read_to_end(&mut decompressed)?;
    Ok(decompressed)
}

} // verus!
