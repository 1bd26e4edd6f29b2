//! What holds of fragmentation: a frame sent as fragments arrives whole.

use vstd::prelude::*;
use crate::decimal::{decimal_bytes, lemma_decimal_roundtrip};
use crate::flags::Flags;
use crate::fragments::{
    frag_id_key, frag_index_key, frag_total_key, fragment_at, fragment_count, fragment_headers,
    fragment_info_spec, is_fragment_key,
};
use crate::peer::PeerAddr;
use crate::reassembly::{
    add_fragment_spec, FragmentView, Outcome, ReassemblyView, SessionView, MAX_DATAGRAM_SIZE,
    MAX_FRAGMENTS,
};
use crate::reassembly_laws::{delivery_ok, joined, lemma_any_order_assembles, outcome_of, piece};
use crate::reliability::ack_for_spec;
use crate::types::{first_header, FrameView, HeaderView, VSTP_VERSION};
use crate::udp::{
    carrier_at, carrier_spec, datagrams_spec, reassembled_spec, receive_spec,
    strip_fragment_headers, DatagramRule, MAX_UDP_FRAME_SIZE,
};
use crate::wire::{decode_spec, encodable, encode_spec, wire_len, Decoded};
use crate::wire_laws::{lemma_encoding_layout, lemma_roundtrip};

verus! {

/// Whether no header has one of the three fragment keys.
pub open spec fn no_fragment_keys(headers: Seq<HeaderView>) -> bool {
    forall|j: int| 0 <= j < headers.len() ==> !is_fragment_key((#[trigger] headers[j]).key)
}

/// The three fragment keys differ from one another.
pub proof fn lemma_fragment_keys_differ()
    ensures
        frag_id_key() != frag_index_key(),
        frag_id_key() != frag_total_key(),
        frag_index_key() != frag_total_key(),
{
    assert(frag_id_key().len() == 7);
    assert(frag_index_key().len() == 10);
    assert(frag_total_key().len() == 10);
    assert(frag_index_key()[5] == 105u8);
    assert(frag_total_key()[5] == 116u8);
}

/// The first header with a key, among headers none of which has the key
/// followed by others, is the first with the key among the others.
pub proof fn lemma_first_header_after(
    headers: Seq<HeaderView>,
    more: Seq<HeaderView>,
    key: Seq<u8>,
)
    requires
        forall|j: int| 0 <= j < headers.len() ==> (#[trigger] headers[j]).key != key,
    ensures
        first_header(headers + more, key) == first_header(more, key),
    decreases headers.len(),
{
    if headers.len() == 0 {
        assert(headers + more =~= more);
    } else {
        let all = headers + more;
        assert(all[0] == headers[0]);
        assert(all.drop_first() =~= headers.drop_first() + more);
        assert forall|j: int| 0 <= j < headers.drop_first().len() implies (
        #[trigger] headers.drop_first()[j]).key != key by {
            assert(headers.drop_first()[j] == headers[j + 1]);
        }
        lemma_first_header_after(headers.drop_first(), more, key);
    }
}

/// Headers without fragment keys stay as they are when fragment headers
/// are stripped.
pub proof fn lemma_strip_keeps(headers: Seq<HeaderView>)
    requires
        no_fragment_keys(headers),
    ensures
        strip_fragment_headers(headers) == headers,
    decreases headers.len(),
{
    if headers.len() > 0 {
        let front = headers.drop_last();
        assert forall|j: int| 0 <= j < front.len() implies !is_fragment_key(
            (#[trigger] front[j]).key,
        ) by {
            assert(front[j] == headers[j]);
        }
        lemma_strip_keeps(front);
        assert(!is_fragment_key(headers[headers.len() - 1].key));
        assert(front.push(headers.last()) =~= headers);
    } else {
        assert(strip_fragment_headers(headers) =~= headers);
    }
}

/// A carrier gives its fragment's place, and without the fragment headers
/// its headers are those of the frame it carries.
pub proof fn lemma_carrier_headers(f: FrameView, frag: FragmentView)
    requires
        no_fragment_keys(f.headers),
    ensures
        fragment_info_spec(carrier_spec(f, frag)) == Some(frag),
        strip_fragment_headers(carrier_spec(f, frag).headers) == f.headers,
{
    let c = carrier_spec(f, frag);
    let three = fragment_headers(frag.frag_id, frag.frag_index, frag.frag_total);
    lemma_fragment_keys_differ();
    assert forall|j: int| 0 <= j < f.headers.len() implies (#[trigger] f.headers[j]).key
        != frag_id_key() && f.headers[j].key != frag_index_key() && f.headers[j].key
        != frag_total_key() by {
        assert(!is_fragment_key(f.headers[j].key));
    }
    lemma_first_header_after(f.headers, three, frag_id_key());
    lemma_first_header_after(f.headers, three, frag_index_key());
    lemma_first_header_after(f.headers, three, frag_total_key());
    let two = three.drop_first();
    let one = two.drop_first();
    assert(three[0].key == frag_id_key());
    assert(two[0] == three[1]);
    assert(one[0] == three[2]);
    assert(first_header(three, frag_id_key()) == Some(decimal_bytes(frag.frag_id as nat)));
    assert(first_header(two, frag_index_key()) == Some(decimal_bytes(frag.frag_index as nat)));
    assert(first_header(three, frag_index_key()) == first_header(two, frag_index_key()));
    assert(first_header(one, frag_total_key()) == Some(decimal_bytes(frag.frag_total as nat)));
    assert(first_header(two, frag_total_key()) == first_header(one, frag_total_key()));
    assert(first_header(three, frag_total_key()) == first_header(two, frag_total_key()));
    lemma_decimal_roundtrip(frag.frag_id as nat, 255);
    lemma_decimal_roundtrip(frag.frag_index as nat, 255);
    lemma_decimal_roundtrip(frag.frag_total as nat, 255);
    let h3 = c.headers;
    let h2 = h3.drop_last();
    let h1 = h2.drop_last();
    let h0 = h1.drop_last();
    assert(h3.last() == three[2]);
    assert(h2.last() == three[1]);
    assert(h1.last() == three[0]);
    assert(h0 =~= f.headers);
    assert(is_fragment_key(three[0].key));
    assert(is_fragment_key(three[1].key));
    assert(is_fragment_key(three[2].key));
    lemma_strip_keeps(f.headers);
    assert(strip_fragment_headers(h1) == strip_fragment_headers(h0));
    assert(strip_fragment_headers(h2) == strip_fragment_headers(h1));
    assert(strip_fragment_headers(h3) == strip_fragment_headers(h2));
}

/// The pieces into which a byte string is cut.
pub open spec fn pieces(bytes: Seq<u8>, frag_id: u8) -> Seq<Seq<u8>> {
    Seq::new(
        fragment_count(bytes.len() as int) as nat,
        |i: int| fragment_at(bytes, frag_id, fragment_count(bytes.len() as int), i).data,
    )
}

/// The first `m` pieces of a byte string join to its first bytes.
pub proof fn lemma_pieces_join_prefix(bytes: Seq<u8>, frag_id: u8, m: int)
    requires
        0 <= m <= fragment_count(bytes.len() as int),
    ensures
        joined(pieces(bytes, frag_id).take(m)) == bytes.take(
            if MAX_DATAGRAM_SIZE * m < bytes.len() {
                MAX_DATAGRAM_SIZE * m
            } else {
                bytes.len() as int
            },
        ),
    decreases m,
{
    let all = pieces(bytes, frag_id);
    if m == 0 {
        assert(all.take(0) =~= Seq::<Seq<u8>>::empty());
        assert(joined(all.take(0)) =~= bytes.take(0));
    } else {
        lemma_pieces_join_prefix(bytes, frag_id, m - 1);
        let t = all.take(m);
        assert(t.drop_last() =~= all.take(m - 1));
        assert(t.last() == all[m - 1]);
        assert(MAX_DATAGRAM_SIZE * (m - 1) < bytes.len());
        let end = if MAX_DATAGRAM_SIZE * m < bytes.len() {
            MAX_DATAGRAM_SIZE * m
        } else {
            bytes.len() as int
        };
        assert(bytes.take(MAX_DATAGRAM_SIZE * (m - 1)) + bytes.subrange(
            MAX_DATAGRAM_SIZE * (m - 1),
            end,
        ) =~= bytes.take(end));
    }
}

/// The pieces of a byte string join to the byte string.
pub proof fn lemma_pieces_join(bytes: Seq<u8>, frag_id: u8)
    ensures
        joined(pieces(bytes, frag_id)) == bytes,
{
    let n = fragment_count(bytes.len() as int);
    lemma_pieces_join_prefix(bytes, frag_id, n);
    assert(pieces(bytes, frag_id).take(n) =~= pieces(bytes, frag_id));
    assert(MAX_DATAGRAM_SIZE * n >= bytes.len());
    assert(bytes.take(bytes.len() as int) =~= bytes);
}

/// What is known of a frame that travels as fragments: it has an encoding
/// too long for one datagram, the current version, at most 255 fragments,
/// no header that looks like a fragment header, and carriers that have
/// encodings the receiver accepts.
pub open spec fn travels_fragmented(f: FrameView, frag_id: u8) -> bool {
    &&& encodable(f)
    &&& f.version == VSTP_VERSION
    &&& wire_len(f) > MAX_DATAGRAM_SIZE
    &&& fragment_count(wire_len(f)) <= MAX_FRAGMENTS
    &&& no_fragment_keys(f.headers)
    &&& forall|i: int|
        0 <= i < fragment_count(wire_len(f)) ==> encodable(#[trigger] carrier_at(f, frag_id, i))
            && wire_len(carrier_at(f, frag_id, i)) <= MAX_UDP_FRAME_SIZE
}

/// What the receiver makes of the datagram of one carrier: the carrier's
/// fragment goes to the reassembly table, and when it completes the
/// message, the frame delivered is the carrier without its fragment
/// headers, with the joined bytes as payload.
pub proof fn lemma_carrier_received(
    f: FrameView,
    frag_id: u8,
    i: int,
    table: ReassemblyView,
    from: PeerAddr,
    now: u64,
)
    requires
        travels_fragmented(f, frag_id),
        0 <= i < fragment_count(wire_len(f)),
    ensures
        datagrams_spec(f, frag_id)[i] == encode_spec(carrier_at(f, frag_id, i)),
        receive_spec(table, datagrams_spec(f, frag_id)[i], from, now).0.sessions
            == add_fragment_spec(
            table.sessions,
            table.max_sessions,
            table.timeout,
            from,
            piece(frag_id, pieces(encode_spec(f), frag_id), i),
            now,
        ).sessions,
        match add_fragment_spec(
            table.sessions,
            table.max_sessions,
            table.timeout,
            from,
            piece(frag_id, pieces(encode_spec(f), frag_id), i),
            now,
        ).outcome {
            Outcome::Pending => receive_spec(table, datagrams_spec(f, frag_id)[i], from, now).1
                == DatagramRule::Pending,
            Outcome::Complete(bytes) => receive_spec(
                table,
                datagrams_spec(f, frag_id)[i],
                from,
                now,
            ).1 == (DatagramRule::Delivered {
                frame: FrameView {
                    flags: f.flags | Flags::FRAG,
                    payload: bytes,
                    ..f
                },
                ack: ack_for_spec(FrameView { flags: f.flags | Flags::FRAG, payload: bytes, ..f }),
            }),
            Outcome::Rejected(why) => receive_spec(
                table,
                datagrams_spec(f, frag_id)[i],
                from,
                now,
            ).1 == DatagramRule::Failed(why),
        },
{
    let c = carrier_at(f, frag_id, i);
    let e = encode_spec(f);
    lemma_encoding_layout(f);
    let count = fragment_count(wire_len(f));
    let frag = fragment_at(e, frag_id, count, i);
    assert(encodable(c));
    lemma_roundtrip(c, MAX_UDP_FRAME_SIZE as int);
    lemma_carrier_headers(f, frag);
    assert(piece(frag_id, pieces(e, frag_id), i) == frag);
}

/// Fragmentation round trip: when the datagrams of a fragmented frame come
/// in any order, each within the timeout of the first, to a table with room
/// and no live entry for the message, all but the last are kept, and the
/// last one completes the message. The bytes joined are the frame's
/// encoding, so that decoding them gives the frame; the frame delivered has
/// them as payload, the type and headers of the frame sent, and none of the
/// three fragment headers.
pub proof fn lemma_fragmentation_roundtrip(
    f: FrameView,
    frag_id: u8,
    sessions: Seq<SessionView>,
    max_sessions: usize,
    timeout: u64,
    peer: PeerAddr,
    order: Seq<int>,
    times: Seq<u64>,
    max_frame_size: int,
)
    requires
        travels_fragmented(f, frag_id),
        wire_len(f) <= max_frame_size,
        delivery_ok(
            sessions,
            max_sessions,
            timeout,
            peer,
            frag_id,
            pieces(encode_spec(f), frag_id),
            order,
            times,
        ),
    ensures
        forall|k: nat|
            k < fragment_count(wire_len(f)) - 1 ==> #[trigger] outcome_of(
                sessions,
                max_sessions,
                timeout,
                peer,
                frag_id,
                pieces(encode_spec(f), frag_id),
                order,
                times,
                k,
            ) == Outcome::Pending,
        outcome_of(
            sessions,
            max_sessions,
            timeout,
            peer,
            frag_id,
            pieces(encode_spec(f), frag_id),
            order,
            times,
            (fragment_count(wire_len(f)) - 1) as nat,
        ) == Outcome::Complete(encode_spec(f)),
        decode_spec(encode_spec(f), max_frame_size) == (Decoded::Frame {
            frame: f,
            consumed: wire_len(f),
        }),
        forall|i: int|
            0 <= i < fragment_count(wire_len(f)) ==> #[trigger] reassembled_spec(
                carrier_at(f, frag_id, i),
                encode_spec(f),
            ) == (FrameView { flags: f.flags | Flags::FRAG, payload: encode_spec(f), ..f }),
{
    let e = encode_spec(f);
    lemma_encoding_layout(f);
    lemma_pieces_join(e, frag_id);
    lemma_any_order_assembles(
        sessions,
        max_sessions,
        timeout,
        peer,
        frag_id,
        pieces(e, frag_id),
        order,
        times,
    );
    lemma_roundtrip(f, max_frame_size);
    let count = fragment_count(wire_len(f));
    assert forall|i: int| 0 <= i < count implies #[trigger] reassembled_spec(
        carrier_at(f, frag_id, i),
        e,
    ) == (FrameView { flags: f.flags | Flags::FRAG, payload: e, ..f }) by {
        lemma_carrier_headers(f, fragment_at(e, frag_id, count, i));
    }
}

} // verus!
