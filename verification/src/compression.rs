//! Optional compression of payloads with gzip.

use vstd::prelude::*;
use vstd::slice::slice_to_vec;
use vstd::string::StringExecFns;
use crate::error::VstpError;

verus! {

/// The settings of compression.
#[derive(Debug, Clone, Copy, PartialEq, Eq, Structural)]
pub struct CompressionConfig {
    /// Data shorter than this many bytes is left as it is.
    pub min_size: usize,
    /// The effort, from 0 to 9.
    pub level: u32,
    /// Whether headers are compressed too.
    pub compress_headers: bool,
}

impl Default for CompressionConfig {
    /// Compression from 1 KiB on, effort 6, headers left alone.
    fn default() -> (r: CompressionConfig)
        ensures
            r == (CompressionConfig { min_size: 1024, level: 6, compress_headers: false }),
    {
        CompressionConfig { min_size: 1024, level: 6, compress_headers: false }
    }
}

impl CompressionConfig {
    /// The default settings.
    pub fn new() -> (r: CompressionConfig)
        ensures
            r == (CompressionConfig { min_size: 1024, level: 6, compress_headers: false }),
    {
        CompressionConfig { min_size: 1024, level: 6, compress_headers: false }
    }

    /// The same settings with another least size.
    pub fn min_size(self, size: usize) -> (r: CompressionConfig)
        ensures
            r == (CompressionConfig { min_size: size, ..self }),
    {
        CompressionConfig { min_size: size, ..self }
    }

    /// The same settings with another effort, at most 9.
    pub fn level(self, level: u32) -> (r: CompressionConfig)
        ensures
            r == (CompressionConfig {
                level: if level > 9 {
                    9
                } else {
                    level
                },
                ..self
            }),
    {
        CompressionConfig {
            level: if level > 9 {
                9
            } else {
                level
            },
            ..self
        }
    }

    /// The same settings with header compression on or off.
    pub fn compress_headers(self, enable: bool) -> (r: CompressionConfig)
        ensures
            r == (CompressionConfig { compress_headers: enable, ..self }),
    {
        CompressionConfig { compress_headers: enable, ..self }
    }
}

/// The gzip stream that the `flate2` crate makes of a byte string at an
/// effort from 0 to 9.
pub uninterp spec fn gzip_of(data: Seq<u8>, level: u32) -> Seq<u8>;

/// The byte string that the `flate2` crate reads out of a gzip stream, if
/// it reads one.
pub uninterp spec fn gunzip_of(data: Seq<u8>) -> Option<Seq<u8>>;

/// `flate2::write::GzEncoder` on a `Vec`, with `write_all` and `finish`:
/// the gzip stream of `data`, or the text of the error that the encoder
/// reported. An effort above 10 trips an assertion of the encoder.
#[verifier::external_body]
pub(crate) fn gzip_encode(data: &[u8], level: u32) -> (r: Result<Vec<u8>, String>)
    requires
        level <= 9,
    ensures
        r is Ok ==> r->Ok_0@ == gzip_of(data@, level),
{
    let mut encoder = flate2::write::GzEncoder::new(Vec::new(), flate2::Compression::new(level));
    match std::io::Write::write_all(&mut encoder, data) {
        Ok(_) => encoder.finish().map_err(|e| e.to_string()),
        Err(e) => Err(e.to_string()),
    }
}

/// `flate2::write::GzDecoder` on a `Vec`, with `write_all` and `finish`:
/// the bytes read out of the gzip stream `data`, or the text of the error
/// that the decoder reported.
#[verifier::external_body]
pub(crate) fn gzip_decode(data: &[u8]) -> (r: Result<Vec<u8>, String>)
    ensures
        r is Ok <==> gunzip_of(data@) is Some,
        r is Ok ==> r->Ok_0@ == gunzip_of(data@)->0,
{
    let mut decoder = flate2::write::GzDecoder::new(Vec::new());
    match std::io::Write::write_all(&mut decoder, data) {
        Ok(_) => decoder.finish().map_err(|e| e.to_string()),
        Err(e) => Err(e.to_string()),
    }
}

/// The effort that is handed to the encoder: the configured one, at most 9.
pub open spec fn effective_level(config: CompressionConfig) -> u32 {
    if config.level > 9 {
        9
    } else {
        config.level
    }
}

/// What is done with the encoder's answer: its bytes, or a protocol error
/// that starts with `prefix` and goes on with the encoder's text.
pub fn compressed_or_error(answer: Result<Vec<u8>, String>, prefix: &str) -> (r: Result<
    Vec<u8>,
    VstpError,
>)
    ensures
        match answer {
            Ok(bytes) => r is Ok && r->Ok_0@ == bytes@,
            Err(text) => r is Err && r->Err_0.is_protocol(prefix@ + text@),
        },
{
    match answer {
        Ok(bytes) => Ok(bytes),
        Err(text) => {
            let message = String::from_str(prefix).concat(text.as_str());
            Err(VstpError::Protocol(message))
        },
    }
}

/// Compresses data, unless it is shorter than the configured least size:
/// then the result is the data itself.
pub fn compress(data: &[u8], config: &CompressionConfig) -> (r: Result<Vec<u8>, VstpError>)
    ensures
        data@.len() < config.min_size ==> r is Ok && r->Ok_0@ == data@,
        data@.len() >= config.min_size && r is Ok ==> r->Ok_0@ == gzip_of(
            data@,
            effective_level(*config),
        ),
        r is Err ==> r->Err_0 is Protocol,
{
    if data.len() < config.min_size {
        return Ok(slice_to_vec(data));
    }
    let level: u32 = if config.level > 9 {
        9
    } else {
        config.level
    };
    compressed_or_error(gzip_encode(data, level), "Compression error: ")
}

/// Reads the data out of a gzip stream.
pub fn decompress(data: &[u8]) -> (r: Result<Vec<u8>, VstpError>)
    ensures
        match gunzip_of(data@) {
            Some(bytes) => r is Ok && r->Ok_0@ == bytes,
            None => r is Err && r->Err_0 is Protocol,
        },
{
    compressed_or_error(gzip_decode(data), "Decompression error: ")
}

} // verus!
