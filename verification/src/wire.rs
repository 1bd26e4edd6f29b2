//! The wire format of a frame, as a relation between frames and bytes.
//!
//! ```text
//! offset  size     field
//! 0       2        magic, 0x56 0x54
//! 2       1        version
//! 3       1        type
//! 4       1        flags
//! 5       2        length of the header block, little-endian
//! 7       4        length of the payload, big-endian
//! 11      ...      header block: per header two length bytes, key, value
//! ...     ...      payload
//! end-4   4        CRC-32 over everything before it, big-endian
//! ```

use vstd::prelude::*;
use crate::crc::crc32_of;
use crate::endian::{be32, be32_bytes, le16, le16_bytes};
use crate::types::{FrameType, FrameView, HeaderView, VSTP_MAGIC_0, VSTP_MAGIC_1, VSTP_VERSION};

verus! {

/// Whether key and value are short enough for their length bytes.
pub open spec fn header_fits(h: HeaderView) -> bool {
    h.key.len() <= 255 && h.value.len() <= 255
}

/// The bytes of one header: two length bytes, key, value.
pub open spec fn header_bytes(h: HeaderView) -> Seq<u8> {
    seq![h.key.len() as u8, h.value.len() as u8] + h.key + h.value
}

/// The header block: the headers' bytes in the headers' order.
pub open spec fn headers_bytes(headers: Seq<HeaderView>) -> Seq<u8>
    decreases headers.len(),
{
    if headers.len() == 0 {
        Seq::empty()
    } else {
        headers_bytes(headers.drop_last()) + header_bytes(headers.last())
    }
}

/// Whether every header is short enough for its length bytes.
pub open spec fn headers_fit(headers: Seq<HeaderView>) -> bool {
    forall|i: int| 0 <= i < headers.len() ==> header_fits(#[trigger] headers[i])
}

/// Whether the frame has an encoding: every length fits its field.
pub open spec fn encodable(f: FrameView) -> bool {
    &&& headers_fit(f.headers)
    &&& headers_bytes(f.headers).len() <= 65535
    &&& f.payload.len() <= 4294967295
}

/// The length of the frame's encoding.
pub open spec fn wire_len(f: FrameView) -> int {
    11 + (headers_bytes(f.headers).len() as int) + (f.payload.len() as int) + 4
}

/// The encoding without its checksum.
pub open spec fn body_bytes(f: FrameView) -> Seq<u8> {
    seq![VSTP_MAGIC_0, VSTP_MAGIC_1, f.version, f.typ.spec_code(), f.flags] + le16_bytes(
        headers_bytes(f.headers).len() as int,
    ) + be32_bytes(f.payload.len() as int) + headers_bytes(f.headers) + f.payload
}

/// The encoding of a frame.
pub open spec fn encode_spec(f: FrameView) -> Seq<u8> {
    body_bytes(f) + be32_bytes(crc32_of(body_bytes(f)) as int)
}

/// The headers that a header block holds, if it is made of whole headers.
pub open spec fn parse_headers(block: Seq<u8>) -> Option<Seq<HeaderView>>
    decreases block.len(),
{
    if block.len() == 0 {
        Some(Seq::empty())
    } else if block.len() < 2 {
        None
    } else {
        let klen = block[0] as int;
        let vlen = block[1] as int;
        if 2 + klen + vlen > block.len() {
            None
        } else {
            let h = HeaderView {
                key: block.subrange(2, 2 + klen),
                value: block.subrange(2 + klen, 2 + klen + vlen),
            };
            match parse_headers(block.skip(2 + klen + vlen)) {
                Some(rest) => Some(seq![h] + rest),
                None => None,
            }
        }
    }
}

/// Why bytes are not a frame.
pub enum WireFault {
    /// The first two bytes are not the magic; these are the two bytes.
    BadMagic(u8, u8),
    /// The version byte is not the current version.
    BadVersion(u8),
    /// The lengths announce a frame longer than the limit.
    TooLarge { total: int },
    /// The stored checksum is not the computed one.
    BadCrc { stored: u32, computed: u32 },
    /// The type byte names no type.
    BadType(u8),
    /// The header block is not made of whole headers.
    BadHeaders,
}

/// What the front of a buffer holds.
pub enum Decoded {
    /// Not yet a whole frame.
    NeedMore,
    /// A frame, and the number of bytes it takes.
    Frame { frame: FrameView, consumed: int },
    /// No frame; `consumed` bytes are taken from the buffer all the same.
    Fault { fault: WireFault, consumed: int },
}

/// The length that the fixed part announces for the whole frame.
pub open spec fn announced_len(buf: Seq<u8>) -> int
    recommends
        buf.len() >= 11,
{
    11 + le16(buf[5], buf[6]) + be32(buf[7], buf[8], buf[9], buf[10]) + 4
}

/// What a frame of `total` bytes at the front of the buffer holds, once it
/// has been detached.
pub open spec fn decode_detached(data: Seq<u8>) -> Decoded
    recommends
        data.len() >= 15,
        data.len() == announced_len(data),
{
    let total = data.len() as int;
    let hlen = le16(data[5], data[6]);
    let stored = be32(data[total - 4], data[total - 3], data[total - 2], data[total - 1]) as u32;
    let computed = crc32_of(data.subrange(0, total - 4));
    if stored != computed {
        Decoded::Fault { fault: WireFault::BadCrc { stored, computed }, consumed: total }
    } else {
        match FrameType::spec_from_u8(data[3]) {
            None => Decoded::Fault { fault: WireFault::BadType(data[3]), consumed: total },
            Some(typ) => match parse_headers(data.subrange(11, 11 + hlen)) {
                None => Decoded::Fault { fault: WireFault::BadHeaders, consumed: total },
                Some(headers) => Decoded::Frame {
                    frame: FrameView {
                        version: data[2],
                        typ,
                        flags: data[4],
                        headers,
                        payload: data.subrange(11 + hlen, total - 4),
                    },
                    consumed: total,
                },
            },
        }
    }
}

/// What the front of a buffer holds, for a given limit on the frame size.
pub open spec fn decode_spec(buf: Seq<u8>, max_frame_size: int) -> Decoded {
    if buf.len() < 11 {
        Decoded::NeedMore
    } else if buf[0] != VSTP_MAGIC_0 || buf[1] != VSTP_MAGIC_1 {
        Decoded::Fault { fault: WireFault::BadMagic(buf[0], buf[1]), consumed: 0 }
    } else if buf[2] != VSTP_VERSION {
        Decoded::Fault { fault: WireFault::BadVersion(buf[2]), consumed: 0 }
    } else if announced_len(buf) > max_frame_size {
        Decoded::Fault { fault: WireFault::TooLarge { total: announced_len(buf) }, consumed: 0 }
    } else if buf.len() < announced_len(buf) {
        Decoded::NeedMore
    } else {
        decode_detached(buf.subrange(0, announced_len(buf)))
    }
}

} // verus!
