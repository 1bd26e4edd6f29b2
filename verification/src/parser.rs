//! Encoding frames to bytes and decoding them from a growing buffer.

use vstd::prelude::*;
use vstd::slice::{slice_subrange, slice_to_vec};
use vstd::string::StringExecFns;
use bytes::{Bytes, BytesMut};
use crate::buffers::{
    buf_as_slice, buf_freeze, buf_len, buf_new, buf_put_slice, buf_put_u16_le, buf_put_u8,
    buf_split_to, frozen, held,
};
use crate::crc::checksum;
use crate::endian::{be32_bytes, read_u16_le, read_u32_be};
use crate::error::VstpError;
use crate::flags::Flags;
use crate::types::{
    headers_view, Frame, FrameType, FrameView, Header, HeaderView, VSTP_MAGIC_0, VSTP_MAGIC_1,
    VSTP_VERSION,
};
use crate::wire::{
    announced_len, body_bytes, decode_spec, encodable, encode_spec, header_bytes, header_fits,
    headers_bytes, parse_headers, wire_len, Decoded, WireFault,
};

verus! {

/// What stops the encoder at a header.
pub enum HeaderFault {
    /// The key is longer than 255 bytes.
    KeyTooLong,
    /// The value is longer than 255 bytes.
    ValueTooLong,
    /// The block of the headers up to this one is longer than 65535 bytes.
    BlockTooLong,
}

/// What stops the encoder at the header of index `i`, if anything.
pub open spec fn header_fault_at(headers: Seq<HeaderView>, i: int) -> Option<HeaderFault> {
    if headers[i].key.len() > 255 {
        Some(HeaderFault::KeyTooLong)
    } else if headers[i].value.len() > 255 {
        Some(HeaderFault::ValueTooLong)
    } else if headers_bytes(headers.take(i + 1)).len() > 65535 {
        Some(HeaderFault::BlockTooLong)
    } else {
        None
    }
}

/// Whether `e` is the error for a header fault.
pub open spec fn reports_header_fault(e: VstpError, fault: HeaderFault) -> bool {
    match fault {
        HeaderFault::KeyTooLong => e.is_protocol("Header key too long"@),
        HeaderFault::ValueTooLong => e.is_protocol("Header value too long"@),
        HeaderFault::BlockTooLong => e.is_protocol("Header block too long"@),
    }
}

/// Whether `e` is the error that the encoder owes for a frame: the fault of
/// the first header that has one; else a payload that does not fit its
/// length field; else an encoding too long for one buffer of this machine.
pub open spec fn encode_rejects(f: FrameView, e: VstpError) -> bool {
    if exists|i: int| 0 <= i < f.headers.len() && header_fault_at(f.headers, i) is Some {
        exists|i: int|
            0 <= i < f.headers.len() && (#[trigger] header_fault_at(f.headers, i)) is Some
                && (forall|j: int| 0 <= j < i ==> header_fault_at(f.headers, j) is None)
                && reports_header_fault(e, header_fault_at(f.headers, i)->0)
    } else if f.payload.len() > 4294967295 {
        e.is_protocol("Payload too long"@)
    } else {
        &&& wire_len(f) > isize::MAX
        &&& e == (VstpError::FrameTooLarge {
            size: f.payload.len() as usize,
            limit: (isize::MAX - 15 - headers_bytes(f.headers).len()) as usize,
        })
    }
}

/// The block of a list of headers is the block of all but the last, followed
/// by the last header's bytes.
pub proof fn lemma_headers_bytes_take(headers: Seq<HeaderView>, i: int)
    requires
        0 <= i < headers.len(),
    ensures
        headers_bytes(headers.take(i + 1)) == headers_bytes(headers.take(i)) + header_bytes(
            headers[i],
        ),
{
    let t = headers.take(i + 1);
    assert(t.drop_last() =~= headers.take(i));
    assert(t.last() == headers[i]);
}

/// A longer list of headers has a block at least as long.
pub proof fn lemma_headers_bytes_monotone(headers: Seq<HeaderView>, i: int, j: int)
    requires
        0 <= i <= j <= headers.len(),
    ensures
        headers_bytes(headers.take(i)).len() <= headers_bytes(headers.take(j)).len(),
    decreases j - i,
{
    if i < j {
        lemma_headers_bytes_monotone(headers, i, j - 1);
        lemma_headers_bytes_take(headers, j - 1);
    }
}

/// Appends the four bytes of `n`, highest first.
fn put_u32_be(buf: &mut BytesMut, n: u32)
    requires
        held(*old(buf)).len() + 4 <= isize::MAX,
    ensures
        held(*final(buf)) == held(*old(buf)) + be32_bytes(n as int),
{
    let b0: u8 = (n / 16777216) as u8;
    let b1: u8 = (n / 65536 % 256) as u8;
    let b2: u8 = (n / 256 % 256) as u8;
    let b3: u8 = (n % 256) as u8;
    buf_put_u8(buf, b0);
    buf_put_u8(buf, b1);
    buf_put_u8(buf, b2);
    buf_put_u8(buf, b3);
    assert(held(*buf) =~= held(*old(buf)) + be32_bytes(n as int));
}

/// Encodes a frame.
///
/// The result is the frame's encoding whenever the frame has one that fits
/// in a buffer: every key and value at most 255 bytes, the header block at
/// most 65535 bytes, the payload at most `u32::MAX` bytes. Otherwise the
/// error names the first length that does not fit.
pub fn encode_frame(frame: &Frame) -> (r: Result<Bytes, VstpError>)
    ensures
        match r {
            Ok(b) => encodable(frame@) && wire_len(frame@) <= isize::MAX && frozen(b)
                == encode_spec(frame@),
            Err(e) => encode_rejects(frame@, e),
        },
{
    let ghost f = frame@;
    let mut header_data = buf_new();
    let mut i: usize = 0;
    while i < frame.headers.len()
        invariant
            f == frame@,
            i <= frame.headers@.len(),
            held(header_data) == headers_bytes(f.headers.take(i as int)),
            held(header_data).len() <= 65535,
            forall|j: int| 0 <= j < i ==> header_fault_at(f.headers, j) is None,
        decreases frame.headers@.len() - i,
    {
        let header = &frame.headers[i];
        proof {
            lemma_headers_bytes_take(f.headers, i as int);
            assert(f.headers[i as int] == header@);
        }
        if header.key.len() > 255 {
            let e = VstpError::Protocol(String::from_str("Header key too long"));
            proof {
                assert(header_fault_at(f.headers, i as int) == Some(HeaderFault::KeyTooLong));
                assert(reports_header_fault(e, HeaderFault::KeyTooLong));
            }
            return Err(e);
        }
        if header.value.len() > 255 {
            let e = VstpError::Protocol(String::from_str("Header value too long"));
            proof {
                assert(header_fault_at(f.headers, i as int) == Some(HeaderFault::ValueTooLong));
                assert(reports_header_fault(e, HeaderFault::ValueTooLong));
            }
            return Err(e);
        }
        if buf_len(&header_data) + 2 + header.key.len() + header.value.len() > 65535 {
            let e = VstpError::Protocol(String::from_str("Header block too long"));
            proof {
                assert(header_fault_at(f.headers, i as int) == Some(HeaderFault::BlockTooLong));
                assert(reports_header_fault(e, HeaderFault::BlockTooLong));
            }
            return Err(e);
        }
        buf_put_u8(&mut header_data, header.key.len() as u8);
        buf_put_u8(&mut header_data, header.value.len() as u8);
        buf_put_slice(&mut header_data, header.key.as_slice());
        buf_put_slice(&mut header_data, header.value.as_slice());
        assert(held(header_data) =~= headers_bytes(f.headers.take(i as int)) + header_bytes(
            header@,
        ));
        i += 1;
    }
    proof {
        assert(f.headers.take(i as int) =~= f.headers);
        assert forall|j: int| 0 <= j < f.headers.len() implies header_fits(
            #[trigger] f.headers[j],
        ) by {
            assert(header_fault_at(f.headers, j) is None);
        }
    }
    let hlen: usize = buf_len(&header_data);
    if frame.payload.len() > 4294967295 {
        return Err(VstpError::Protocol(String::from_str("Payload too long")));
    }
    let limit: usize = (isize::MAX as usize) - 15 - hlen;
    if frame.payload.len() > limit {
        return Err(VstpError::FrameTooLarge { size: frame.payload.len(), limit });
    }
    let mut buf = buf_new();
    buf_put_u8(&mut buf, VSTP_MAGIC_0);
    buf_put_u8(&mut buf, VSTP_MAGIC_1);
    buf_put_u8(&mut buf, frame.version);
    buf_put_u8(&mut buf, frame.typ.code());
    buf_put_u8(&mut buf, frame.flags.bits());
    buf_put_u16_le(&mut buf, hlen as u16);
    put_u32_be(&mut buf, frame.payload.len() as u32);
    buf_put_slice(&mut buf, buf_as_slice(&header_data));
    buf_put_slice(&mut buf, frame.payload.as_slice());
    assert(held(buf) =~= body_bytes(f));
    let crc_value = checksum(buf_as_slice(&buf));
    put_u32_be(&mut buf, crc_value);
    Ok(buf_freeze(buf))
}

/// The headers read so far, followed by those still to be read, if they can
/// be read.
pub open spec fn headers_then(done: Seq<HeaderView>, rest: Option<Seq<HeaderView>>) -> Option<
    Seq<HeaderView>,
> {
    match rest {
        Some(more) => Some(done + more),
        None => None,
    }
}

/// Reads a header block.
///
/// The result is the list of headers exactly when the block is made of whole
/// headers, each two length bytes followed by as many bytes of key and value.
pub fn parse_header_block(block: &[u8]) -> (r: Option<Vec<Header>>)
    ensures
        match r {
            Some(headers) => parse_headers(block@) == Some(headers_view(headers@)),
            None => parse_headers(block@) is None,
        },
{
    let mut headers: Vec<Header> = Vec::new();
    let mut pos: usize = 0;
    assert(block@.skip(0) =~= block@);
    assert(headers_view(headers@) =~= Seq::<HeaderView>::empty());
    proof {
        match parse_headers(block@) {
            Some(more) => {
                assert(Seq::<HeaderView>::empty() + more =~= more);
            },
            None => {},
        }
    }
    while pos < block.len()
        invariant
            pos <= block@.len(),
            parse_headers(block@) == headers_then(
                headers_view(headers@),
                parse_headers(block@.skip(pos as int)),
            ),
        decreases block@.len() - pos,
    {
        let ghost rest = block@.skip(pos as int);
        let ghost done = headers_view(headers@);
        if block.len() - pos < 2 {
            return None;
        }
        let key_len: usize = block[pos] as usize;
        let value_len: usize = block[pos + 1] as usize;
        if block.len() - pos - 2 < key_len + value_len {
            return None;
        }
        let key = slice_to_vec(slice_subrange(block, pos + 2, pos + 2 + key_len));
        let value = slice_to_vec(
            slice_subrange(block, pos + 2 + key_len, pos + 2 + key_len + value_len),
        );
        let header = Header { key, value };
        proof {
            let n = 2 + key_len + value_len;
            assert(header@.key =~= rest.subrange(2, 2 + key_len));
            assert(header@.value =~= rest.subrange(2 + key_len, n as int));
            assert(rest.skip(n as int) =~= block@.skip(pos + n));
            match parse_headers(block@.skip(pos + n)) {
                Some(more) => {
                    assert(done + (seq![header@] + more) =~= done.push(header@) + more);
                },
                None => {},
            }
        }
        headers.push(header);
        assert(headers_view(headers@) =~= done.push(header@));
        pos = pos + 2 + key_len + value_len;
    }
    proof {
        assert(block@.skip(pos as int).len() == 0);
        assert(headers_view(headers@) + Seq::<HeaderView>::empty() =~= headers_view(headers@));
    }
    Some(headers)
}

/// Whether `e` is the error that the decoder owes for a fault.
pub open spec fn reports_fault(e: VstpError, fault: WireFault, max_frame_size: usize) -> bool {
    match fault {
        WireFault::BadMagic(m0, m1) => e matches VstpError::InvalidMagic(m) && m[0] == m0 && m[1]
            == m1,
        WireFault::BadVersion(v) => e == (VstpError::InvalidVersion {
            expected: VSTP_VERSION,
            got: v,
        }),
        WireFault::TooLarge { total } => e == (VstpError::FrameTooLarge {
            size: (if total > usize::MAX {
                usize::MAX as int
            } else {
                total
            }) as usize,
            limit: max_frame_size,
        }),
        WireFault::BadCrc { stored, computed } => e == (VstpError::CrcMismatch {
            expected: stored,
            got: computed,
        }),
        WireFault::BadType(t) => e == VstpError::InvalidFrameType(t),
        WireFault::BadHeaders => e.is_protocol("Incomplete header"@),
    }
}

/// Whether a call of the decoder that returned `r` and left `after` in the
/// buffer did what `expected` asks.
pub open spec fn decoder_did(
    expected: Decoded,
    before: Seq<u8>,
    after: Seq<u8>,
    r: Result<Option<Frame>, VstpError>,
    max_frame_size: usize,
) -> bool {
    match expected {
        Decoded::NeedMore => r is Ok && r->Ok_0 is None && after == before,
        Decoded::Frame { frame, consumed } => r is Ok && r->Ok_0 is Some && r->Ok_0->0@ == frame
            && after == before.skip(consumed),
        Decoded::Fault { fault, consumed } => r is Err && reports_fault(
            r->Err_0,
            fault,
            max_frame_size,
        ) && after == before.skip(consumed),
    }
}

/// Takes one frame from the front of a buffer, if a whole one is there.
///
/// While the buffer holds less than a whole frame the result is `Ok(None)`
/// and the buffer is untouched. A frame with wrong magic or version, or one
/// announced longer than `max_frame_size`, is an error and the buffer is
/// untouched. Otherwise the frame's bytes leave the buffer, and the result
/// is the frame, or the error found in it: a checksum that does not match,
/// an unknown type, or a header block that is not made of whole headers.
pub fn try_decode_frame(buf: &mut BytesMut, max_frame_size: usize) -> (r: Result<
    Option<Frame>,
    VstpError,
>)
    ensures
        decoder_did(
            decode_spec(held(*old(buf)), max_frame_size as int),
            held(*old(buf)),
            held(*final(buf)),
            r,
            max_frame_size,
        ),
{
    let ghost before = held(*buf);
    assert(before.skip(0) =~= before);
    if buf_len(buf) < 11 {
        return Ok(None);
    }
    let head = buf_as_slice(buf);
    let m0 = head[0];
    let m1 = head[1];
    if m0 != VSTP_MAGIC_0 || m1 != VSTP_MAGIC_1 {
        return Err(VstpError::InvalidMagic([m0, m1]));
    }
    let version = head[2];
    let type_code = head[3];
    let flags = head[4];
    if version != VSTP_VERSION {
        return Err(VstpError::InvalidVersion { expected: VSTP_VERSION, got: version });
    }
    let header_len: u16 = match read_u16_le(slice_subrange(head, 5, 7)) {
        Some(n) => n,
        None => {
            return Ok(None);
        },
    };
    let payload_len: u32 = match read_u32_be(slice_subrange(head, 7, 11)) {
        Some(n) => n,
        None => {
            return Ok(None);
        },
    };
    let total_wide: u64 = 15 + header_len as u64 + payload_len as u64;
    assert(total_wide == announced_len(before));
    if total_wide > max_frame_size as u64 {
        let size: usize = if total_wide > usize::MAX as u64 {
            usize::MAX
        } else {
            total_wide as usize
        };
        return Err(VstpError::FrameTooLarge { size, limit: max_frame_size });
    }
    let total: usize = total_wide as usize;
    if buf_len(buf) < total {
        return Ok(None);
    }
    let frame_data = buf_split_to(buf, total);
    let data = buf_as_slice(&frame_data);
    assert(held(*buf) =~= before.skip(total as int));
    assert(data@ == before.subrange(0, total as int));
    let expected_crc: u32 = match read_u32_be(slice_subrange(data, total - 4, total)) {
        Some(n) => n,
        None => {
            return Ok(None);
        },
    };
    let calculated_crc = checksum(slice_subrange(data, 0, total - 4));
    if expected_crc != calculated_crc {
        return Err(VstpError::CrcMismatch { expected: expected_crc, got: calculated_crc });
    }
    let typ = match FrameType::from_u8(type_code) {
        Some(t) => t,
        None => {
            return Err(VstpError::InvalidFrameType(type_code));
        },
    };
    let header_end: usize = 11 + header_len as usize;
    let headers = match parse_header_block(slice_subrange(data, 11, header_end)) {
        Some(h) => h,
        None => {
            return Err(VstpError::Protocol(String::from_str("Incomplete header")));
        },
    };
    let payload = slice_to_vec(slice_subrange(data, header_end, total - 4));
    Ok(Some(Frame {
        version,
        typ,
        flags: Flags::from_bits_retain(flags),
        headers,
        payload,
    }))
}

} // verus!
