//! What holds of the wire format: decoding undoes encoding, a frame cut short
//! is never mistaken for a whole one, and damage is found.

use vstd::prelude::*;
use crate::crc::crc32_of;
use crate::endian::{
    be32, be32_bytes, le16, le16_bytes, lemma_be32_bytes_of, lemma_be32_roundtrip,
    lemma_le16_bytes_of, lemma_le16_roundtrip,
};
use crate::types::{
    lemma_type_code_roundtrip, lemma_type_code_unique, FrameView, HeaderView, VSTP_MAGIC_0,
    VSTP_MAGIC_1, VSTP_VERSION,
};
use crate::wire::{
    announced_len, body_bytes, decode_detached, decode_spec, encodable, encode_spec, header_bytes,
    header_fits, headers_bytes, headers_fit, parse_headers, wire_len, Decoded, WireFault,
};

verus! {

/// The block of a list of headers starts with the first header's bytes.
pub proof fn lemma_headers_bytes_prepend(h: HeaderView, rest: Seq<HeaderView>)
    ensures
        headers_bytes(seq![h] + rest) == header_bytes(h) + headers_bytes(rest),
    decreases rest.len(),
{
    let all = seq![h] + rest;
    if rest.len() == 0 {
        assert(all.drop_last() =~= Seq::<HeaderView>::empty());
        assert(rest =~= Seq::<HeaderView>::empty());
        assert(all.last() == h);
        assert(headers_bytes(rest) =~= Seq::<u8>::empty());
        assert(headers_bytes(all.drop_last()) =~= Seq::<u8>::empty());
        assert(headers_bytes(all) =~= header_bytes(h) + headers_bytes(rest));
    } else {
        assert(all.drop_last() =~= seq![h] + rest.drop_last());
        assert(all.last() == rest.last());
        lemma_headers_bytes_prepend(h, rest.drop_last());
        assert(headers_bytes(all) =~= header_bytes(h) + headers_bytes(rest));
    }
}

/// Reading the block of a list of headers gives the list back.
pub proof fn lemma_parse_headers_roundtrip(headers: Seq<HeaderView>)
    requires
        headers_fit(headers),
    ensures
        parse_headers(headers_bytes(headers)) == Some(headers),
    decreases headers.len(),
{
    if headers.len() == 0 {
        assert(headers_bytes(headers) =~= Seq::<u8>::empty());
    } else {
        let h = headers[0];
        let tail = headers.drop_first();
        assert(headers =~= seq![h] + tail);
        lemma_headers_bytes_prepend(h, tail);
        let block = headers_bytes(headers);
        assert(block == header_bytes(h) + headers_bytes(tail));
        assert(header_fits(h));
        let klen = h.key.len() as int;
        let vlen = h.value.len() as int;
        assert(block[0] == klen as u8);
        assert(block[1] == vlen as u8);
        assert(block.subrange(2, 2 + klen) =~= h.key);
        assert(block.subrange(2 + klen, 2 + klen + vlen) =~= h.value);
        assert(block.skip(2 + klen + vlen) =~= headers_bytes(tail));
        assert forall|i: int| 0 <= i < tail.len() implies header_fits(#[trigger] tail[i]) by {
            assert(tail[i] == headers[i + 1]);
        }
        lemma_parse_headers_roundtrip(tail);
    }
}

/// A block that can be read is the block of the headers read from it, and
/// each of them is short enough for its length bytes.
pub proof fn lemma_parse_headers_sound(block: Seq<u8>)
    ensures
        parse_headers(block) matches Some(headers) ==> headers_fit(headers) && headers_bytes(
            headers,
        ) == block,
    decreases block.len(),
{
    if block.len() >= 2 {
        let klen = block[0] as int;
        let vlen = block[1] as int;
        if 2 + klen + vlen <= block.len() {
            let rest_block = block.skip(2 + klen + vlen);
            lemma_parse_headers_sound(rest_block);
            if let Some(rest) = parse_headers(rest_block) {
                let h = HeaderView {
                    key: block.subrange(2, 2 + klen),
                    value: block.subrange(2 + klen, 2 + klen + vlen),
                };
                let headers = seq![h] + rest;
                lemma_headers_bytes_prepend(h, rest);
                assert(header_bytes(h) + rest_block =~= block);
                assert forall|i: int| 0 <= i < headers.len() implies header_fits(
                    #[trigger] headers[i],
                ) by {
                    if i > 0 {
                        assert(headers[i] == rest[i - 1]);
                    }
                }
            }
        }
    } else if block.len() == 0 {
        assert(headers_bytes(Seq::<HeaderView>::empty()) =~= block);
    }
}

/// The shape of an encoding: its length, and what stands where.
pub proof fn lemma_encoding_layout(f: FrameView)
    requires
        encodable(f),
    ensures
        encode_spec(f).len() == wire_len(f),
        body_bytes(f).len() == wire_len(f) - 4,
        encode_spec(f)[0] == VSTP_MAGIC_0,
        encode_spec(f)[1] == VSTP_MAGIC_1,
        encode_spec(f)[2] == f.version,
        encode_spec(f)[3] == f.typ.spec_code(),
        encode_spec(f)[4] == f.flags,
        announced_len(encode_spec(f)) == wire_len(f),
        encode_spec(f).subrange(0, wire_len(f) - 4) == body_bytes(f),
        encode_spec(f).subrange(wire_len(f) - 4, wire_len(f)) == be32_bytes(
            crc32_of(body_bytes(f)) as int,
        ),
        encode_spec(f).subrange(11, 11 + headers_bytes(f.headers).len() as int) == headers_bytes(
            f.headers,
        ),
        encode_spec(f).subrange(11 + headers_bytes(f.headers).len() as int, wire_len(f) - 4)
            == f.payload,
{
    let e = encode_spec(f);
    let hlen = headers_bytes(f.headers).len() as int;
    let plen = f.payload.len() as int;
    lemma_le16_roundtrip(hlen);
    lemma_be32_roundtrip(plen);
    assert(e.len() == wire_len(f));
    assert(e[5] == le16_bytes(hlen)[0]);
    assert(e[6] == le16_bytes(hlen)[1]);
    assert(e[7] == be32_bytes(plen)[0]);
    assert(e[8] == be32_bytes(plen)[1]);
    assert(e[9] == be32_bytes(plen)[2]);
    assert(e[10] == be32_bytes(plen)[3]);
    assert(e.subrange(0, wire_len(f) - 4) =~= body_bytes(f));
    assert(e.subrange(wire_len(f) - 4, wire_len(f)) =~= be32_bytes(
        crc32_of(body_bytes(f)) as int,
    ));
    assert(e.subrange(11, 11 + hlen) =~= headers_bytes(f.headers));
    assert(e.subrange(11 + hlen, wire_len(f) - 4) =~= f.payload);
}

/// Decoding undoes encoding, whatever follows the encoding in the buffer:
/// the frame comes back with its fields and its headers in their order, and
/// exactly the bytes of its encoding are consumed.
pub proof fn lemma_decode_encode(f: FrameView, rest: Seq<u8>, max_frame_size: int)
    requires
        encodable(f),
        f.version == VSTP_VERSION,
        wire_len(f) <= max_frame_size,
    ensures
        decode_spec(encode_spec(f) + rest, max_frame_size) == (Decoded::Frame {
            frame: f,
            consumed: wire_len(f),
        }),
{
    let e = encode_spec(f);
    let buf = e + rest;
    let total = wire_len(f);
    let hlen = headers_bytes(f.headers).len() as int;
    lemma_encoding_layout(f);
    assert(buf[0] == e[0] && buf[1] == e[1] && buf[2] == e[2]);
    assert(buf[5] == e[5] && buf[6] == e[6] && buf[7] == e[7] && buf[8] == e[8] && buf[9]
        == e[9] && buf[10] == e[10]);
    assert(announced_len(buf) == total);
    let data = buf.subrange(0, total);
    assert(data =~= e);
    let crc = crc32_of(body_bytes(f));
    lemma_be32_roundtrip(crc as int);
    let tail = e.subrange(total - 4, total);
    assert(tail[0] == e[total - 4] && tail[1] == e[total - 3] && tail[2] == e[total - 2]
        && tail[3] == e[total - 1]);
    assert(be32(e[total - 4], e[total - 3], e[total - 2], e[total - 1]) == crc as int);
    lemma_type_code_roundtrip(f.typ);
    lemma_le16_roundtrip(hlen);
    assert(le16(e[5], e[6]) == hlen);
    lemma_parse_headers_roundtrip(f.headers);
}

/// Round trip: decoding the encoding of a frame gives the frame.
pub proof fn lemma_roundtrip(f: FrameView, max_frame_size: int)
    requires
        encodable(f),
        f.version == VSTP_VERSION,
        wire_len(f) <= max_frame_size,
    ensures
        decode_spec(encode_spec(f), max_frame_size) == (Decoded::Frame {
            frame: f,
            consumed: wire_len(f),
        }),
{
    lemma_decode_encode(f, Seq::empty(), max_frame_size);
    assert(encode_spec(f) + Seq::<u8>::empty() =~= encode_spec(f));
}

/// Prefix rule: of an encoding cut short at any point the decoder says that
/// it needs more, and so consumes nothing.
pub proof fn lemma_prefix_needs_more(f: FrameView, k: int, max_frame_size: int)
    requires
        encodable(f),
        f.version == VSTP_VERSION,
        wire_len(f) <= max_frame_size,
        0 <= k < encode_spec(f).len(),
    ensures
        decode_spec(encode_spec(f).take(k), max_frame_size) == Decoded::NeedMore,
{
    let e = encode_spec(f);
    let p = e.take(k);
    lemma_encoding_layout(f);
    if k >= 11 {
        assert(p[0] == e[0] && p[1] == e[1] && p[2] == e[2]);
        assert(p[5] == e[5] && p[6] == e[6] && p[7] == e[7] && p[8] == e[8] && p[9] == e[9]
            && p[10] == e[10]);
        assert(announced_len(p) == wire_len(f));
    }
}

/// What the decoder accepts is an encoding: when the front of a buffer
/// decodes to a frame, the bytes consumed are exactly that frame's encoding.
pub proof fn lemma_decode_sound(
    buf: Seq<u8>,
    max_frame_size: int,
    frame: FrameView,
    consumed: int,
)
    requires
        decode_spec(buf, max_frame_size) == (Decoded::Frame { frame, consumed }),
    ensures
        encodable(frame),
        frame.version == VSTP_VERSION,
        consumed == wire_len(frame),
        15 <= consumed <= buf.len(),
        consumed <= max_frame_size,
        buf.take(consumed) == encode_spec(frame),
{
    let total = announced_len(buf);
    let data = buf.subrange(0, total);
    let hlen = le16(buf[5], buf[6]);
    let plen = be32(buf[7], buf[8], buf[9], buf[10]);
    lemma_le16_bytes_of(buf[5], buf[6]);
    lemma_be32_bytes_of(buf[7], buf[8], buf[9], buf[10]);
    assert(decode_detached(data) == (Decoded::Frame { frame, consumed }));
    assert(data[5] == buf[5] && data[6] == buf[6]);
    assert(data[3] == buf[3]);
    let block = data.subrange(11, 11 + hlen);
    lemma_parse_headers_sound(block);
    lemma_type_code_unique(data[3]);
    assert(frame.headers == parse_headers(block)->0);
    assert(headers_bytes(frame.headers) == block);
    assert(frame.payload.len() == plen);
    let stored = be32(data[total - 4], data[total - 3], data[total - 2], data[total - 1]);
    lemma_be32_bytes_of(data[total - 4], data[total - 3], data[total - 2], data[total - 1]);
    assert(body_bytes(frame) =~= data.subrange(0, total - 4));
    assert(stored == crc32_of(body_bytes(frame)) as int);
    assert(encode_spec(frame) =~= data);
    assert(buf.take(consumed) =~= data);
}

/// A frame whose stored checksum was damaged is rejected: when the last
/// four bytes of an encoding are replaced by others, the decoder reports a
/// checksum mismatch with the stored and the computed value.
pub proof fn lemma_damaged_checksum_rejected(
    f: FrameView,
    trailer: Seq<u8>,
    max_frame_size: int,
)
    requires
        encodable(f),
        f.version == VSTP_VERSION,
        wire_len(f) <= max_frame_size,
        trailer.len() == 4,
        trailer != be32_bytes(crc32_of(body_bytes(f)) as int),
    ensures
        decode_spec(body_bytes(f) + trailer, max_frame_size) == (Decoded::Fault {
            fault: WireFault::BadCrc {
                stored: be32(trailer[0], trailer[1], trailer[2], trailer[3]) as u32,
                computed: crc32_of(body_bytes(f)),
            },
            consumed: wire_len(f),
        }),
{
    let e = encode_spec(f);
    let d = body_bytes(f) + trailer;
    let total = wire_len(f);
    lemma_encoding_layout(f);
    assert(d.len() == total);
    assert(d[0] == e[0] && d[1] == e[1] && d[2] == e[2]);
    assert(d[5] == e[5] && d[6] == e[6] && d[7] == e[7] && d[8] == e[8] && d[9] == e[9]
        && d[10] == e[10]);
    assert(announced_len(d) == total);
    let data = d.subrange(0, total);
    assert(data =~= d);
    assert(d.subrange(0, total - 4) =~= body_bytes(f));
    assert(d[total - 4] == trailer[0] && d[total - 3] == trailer[1] && d[total - 2]
        == trailer[2] && d[total - 1] == trailer[3]);
    lemma_be32_bytes_of(trailer[0], trailer[1], trailer[2], trailer[3]);
    assert(trailer =~= seq![trailer[0], trailer[1], trailer[2], trailer[3]]);
}

/// A frame whose magic or version was damaged is rejected before anything
/// is consumed.
pub proof fn lemma_damaged_start_rejected(buf: Seq<u8>, max_frame_size: int)
    requires
        buf.len() >= 11,
        buf[0] != VSTP_MAGIC_0 || buf[1] != VSTP_MAGIC_1 || buf[2] != VSTP_VERSION,
    ensures
        decode_spec(buf, max_frame_size) matches Decoded::Fault { fault, consumed } && consumed
            == 0 && (fault is BadMagic || fault is BadVersion),
{
}

/// No damage goes through unless the checksum agrees with it: when damaged
/// bytes still decode to a frame, the checksum stored in them is the
/// checksum of the damaged bytes before it.
pub proof fn lemma_accepted_checksum_matches(
    buf: Seq<u8>,
    max_frame_size: int,
    frame: FrameView,
    consumed: int,
)
    requires
        decode_spec(buf, max_frame_size) == (Decoded::Frame { frame, consumed }),
    ensures
        15 <= consumed <= buf.len(),
        buf.subrange(consumed - 4, consumed) == be32_bytes(
            crc32_of(buf.subrange(0, consumed - 4)) as int,
        ),
{
    lemma_decode_sound(buf, max_frame_size, frame, consumed);
    lemma_encoding_layout(frame);
    let e = encode_spec(frame);
    assert(buf.subrange(consumed - 4, consumed) =~= e.subrange(consumed - 4, consumed));
    assert(buf.subrange(0, consumed - 4) =~= e.subrange(0, consumed - 4));
}

/// What the decoder has found at the front of a buffer does not change
/// when more bytes arrive: a frame stays that frame, a fault stays that
/// fault.
pub proof fn lemma_decoded_is_stable(buf: Seq<u8>, more: Seq<u8>, max_frame_size: int)
    requires
        decode_spec(buf, max_frame_size) != Decoded::NeedMore,
    ensures
        decode_spec(buf + more, max_frame_size) == decode_spec(buf, max_frame_size),
{
    let all = buf + more;
    assert(all[0] == buf[0] && all[1] == buf[1] && all[2] == buf[2]);
    assert(all[5] == buf[5] && all[6] == buf[6] && all[7] == buf[7] && all[8] == buf[8]
        && all[9] == buf[9] && all[10] == buf[10]);
    assert(announced_len(all) == announced_len(buf));
    if buf[0] == VSTP_MAGIC_0 && buf[1] == VSTP_MAGIC_1 && buf[2] == VSTP_VERSION
        && announced_len(buf) <= max_frame_size {
        assert(all.subrange(0, announced_len(buf)) =~= buf.subrange(0, announced_len(buf)));
    }
}

} // verus!
