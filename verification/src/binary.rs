//! Strings with a length in front: two bytes of length, low byte first,
//! then the UTF-8 bytes.

use vstd::prelude::*;
use vstd::slice::slice_subrange;
use vstd::string::{StringExecFns, StringSliceAdditionalSpecFns};
use vstd::utf8::valid_utf8;
use bytes::Bytes;
use crate::buffers::{buf_freeze, buf_new, buf_put_slice, buf_put_u16_le, frozen, held};
use crate::endian::{le16, le16_bytes, lemma_le16_roundtrip};
use crate::error::VstpError;

verus! {

/// `std::str::from_utf8`: the bytes as a string when they are valid UTF-8,
/// nothing when they are not.
#[verifier::external_body]
pub(crate) fn utf8_str(bytes: &[u8]) -> (r: Option<&str>)
    ensures
        valid_utf8(bytes@) ==> r is Some && r->0.spec_bytes() == bytes@,
        !valid_utf8(bytes@) ==> r is None,
{
    std::str::from_utf8(bytes).ok()
}

/// The encoding of a string of fewer than 65536 bytes.
pub open spec fn string_bytes(text: Seq<u8>) -> Seq<u8> {
    le16_bytes(text.len() as int) + text
}

/// Writes a string with its length in front. Of a length of 65536 or more
/// only the low 16 bits are written.
pub fn encode_string(value: &str) -> (r: Bytes)
    requires
        value.spec_bytes().len() + 2 <= isize::MAX,
    ensures
        frozen(r) == le16_bytes((value.spec_bytes().len() % 65536) as int) + value.spec_bytes(),
        value.spec_bytes().len() < 65536 ==> frozen(r) == string_bytes(value.spec_bytes()),
{
    let mut buf = buf_new();
    let bytes = value.as_bytes();
    let low: u16 = (bytes.len() % 65536) as u16;
    buf_put_u16_le(&mut buf, low);
    buf_put_slice(&mut buf, bytes);
    assert(held(buf) =~= le16_bytes(low as int) + bytes@);
    buf_freeze(buf)
}

/// What the front of a byte string holds.
pub enum StringDecoded {
    /// A string of these bytes, and the count of bytes it took.
    Text { bytes: Seq<u8>, read: int },
    /// Fewer than two bytes.
    NoLength,
    /// Fewer bytes than the length announces.
    Short,
    /// The bytes are not valid UTF-8.
    NotUtf8,
}

/// What the front of a byte string holds.
pub open spec fn decode_string_spec(buf: Seq<u8>) -> StringDecoded {
    if buf.len() < 2 {
        StringDecoded::NoLength
    } else {
        let len = le16(buf[0], buf[1]);
        if buf.len() < len + 2 {
            StringDecoded::Short
        } else if !valid_utf8(buf.subrange(2, len + 2)) {
            StringDecoded::NotUtf8
        } else {
            StringDecoded::Text { bytes: buf.subrange(2, len + 2), read: len + 2 }
        }
    }
}

/// Whether `r` is what the decoder owes for `expected`.
pub open spec fn string_result_is(r: Result<(&str, usize), VstpError>, expected: StringDecoded)
    -> bool {
    match expected {
        StringDecoded::Text { bytes, read } => r is Ok && r->Ok_0.0.spec_bytes() == bytes && r->Ok_0.1
            == read,
        StringDecoded::NoLength => r is Err && r->Err_0.is_protocol("Incomplete string length"@),
        StringDecoded::Short => r is Err && r->Err_0.is_protocol("Incomplete string data"@),
        StringDecoded::NotUtf8 => r is Err && r->Err_0.is_protocol("Invalid UTF-8 string"@),
    }
}

/// Reads a string with its length in front, and says how many bytes it
/// took.
pub fn decode_string(buf: &[u8]) -> (r: Result<(&str, usize), VstpError>)
    ensures
        string_result_is(r, decode_string_spec(buf@)),
{
    if buf.len() < 2 {
        return Err(VstpError::Protocol(String::from_str("Incomplete string length")));
    }
    let len: usize = buf[0] as usize + 256 * (buf[1] as usize);
    let total_len: usize = len + 2;
    if buf.len() < total_len {
        return Err(VstpError::Protocol(String::from_str("Incomplete string data")));
    }
    let string_data = slice_subrange(buf, 2, total_len);
    match utf8_str(string_data) {
        Some(s) => Ok((s, total_len)),
        None => Err(VstpError::Protocol(String::from_str("Invalid UTF-8 string"))),
    }
}

/// Round trip: reading the encoding of a string of fewer than 65536 bytes
/// gives the string and the length of its encoding, whatever follows it.
pub proof fn lemma_string_roundtrip(text: Seq<u8>, rest: Seq<u8>)
    requires
        text.len() < 65536,
        valid_utf8(text),
    ensures
        decode_string_spec(string_bytes(text) + rest) == (StringDecoded::Text {
            bytes: text,
            read: text.len() as int + 2,
        }),
{
    let buf = string_bytes(text) + rest;
    lemma_le16_roundtrip(text.len() as int);
    assert(buf[0] == le16_bytes(text.len() as int)[0]);
    assert(buf[1] == le16_bytes(text.len() as int)[1]);
    assert(buf.subrange(2, text.len() as int + 2) =~= text);
}

} // verus!
