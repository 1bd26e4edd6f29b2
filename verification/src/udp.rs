//! What a UDP endpoint decides: how a frame becomes datagrams, and what an
//! incoming datagram leads to.

use vstd::prelude::*;
use vstd::slice::slice_to_vec;
use vstd::string::StringExecFns;
use bytes::Bytes;
use crate::buffers::{buf_from_slice, bytes_as_slice, frozen};
use crate::error::VstpError;
use crate::flags::Flags;
use crate::fragments::{
    add_fragment_headers, extract_fragment_info, fragment_at, fragment_count, fragment_headers,
    fragment_info_spec, fragment_payload, fragments_of, fragments_view, is_fragment_key,
};
use crate::parser::{encode_frame, encode_rejects, try_decode_frame};
use crate::peer::PeerAddr;
use crate::reassembly::{
    add_fragment_spec, Fragment, FragmentView, Outcome, ReassemblyManager, ReassemblyView, Reject,
    MAX_DATAGRAM_SIZE, MAX_FRAGMENTS,
};
use crate::reliability::{ack_for, ack_for_spec};
use crate::types::{bytes_equal, headers_view, Frame, FrameView, Header, HeaderView};
use crate::wire::{decode_spec, encodable, encode_spec, wire_len, Decoded};

verus! {

/// The longest frame that a datagram is decoded to.
pub const MAX_UDP_FRAME_SIZE: usize = 65536;

/// Whether a frame has an encoding that fits a buffer of this machine.
pub open spec fn can_encode(f: FrameView) -> bool {
    encodable(f) && wire_len(f) <= isize::MAX
}

/// The frame that carries one fragment of the encoding of `f`: the type,
/// version and headers of `f`, its flags with `FRAG` set as well, the three
/// fragment headers at the end, and the fragment's bytes as payload.
pub open spec fn carrier_spec(f: FrameView, frag: FragmentView) -> FrameView {
    FrameView {
        version: f.version,
        typ: f.typ,
        flags: f.flags | Flags::FRAG,
        headers: f.headers + fragment_headers(frag.frag_id, frag.frag_index, frag.frag_total),
        payload: frag.data,
    }
}

/// The carrier of index `i` for the encoding of `f`.
pub open spec fn carrier_at(f: FrameView, frag_id: u8, i: int) -> FrameView {
    carrier_spec(
        f,
        fragment_at(encode_spec(f), frag_id, fragment_count(wire_len(f)), i),
    )
}

/// The datagrams that carry a frame: its encoding where that fits one
/// datagram, else the encodings of its carriers in index order.
pub open spec fn datagrams_spec(f: FrameView, frag_id: u8) -> Seq<Seq<u8>> {
    if wire_len(f) <= MAX_DATAGRAM_SIZE {
        seq![encode_spec(f)]
    } else {
        Seq::new(
            fragment_count(wire_len(f)) as nat,
            |i: int| encode_spec(carrier_at(f, frag_id, i)),
        )
    }
}

/// Whether a frame can be sent: it has an encoding, and where that is too
/// long for one datagram, fragmentation is allowed, at most 255 fragments
/// are needed and each carrier has an encoding.
pub open spec fn sendable(f: FrameView, frag_id: u8, allow_frag: bool) -> bool {
    &&& can_encode(f)
    &&& wire_len(f) > MAX_DATAGRAM_SIZE ==> {
        &&& allow_frag
        &&& fragment_count(wire_len(f)) <= MAX_FRAGMENTS
        &&& forall|i: int|
            0 <= i < fragment_count(wire_len(f)) ==> can_encode(
                #[trigger] carrier_at(f, frag_id, i),
            )
    }
}

/// Whether `e` is the error owed for a frame that cannot be sent: the
/// encoder's error for the frame; else, for a frame too long for one
/// datagram, that fragmentation is off or more than 255 fragments are
/// needed; else the encoder's error for the first carrier without an
/// encoding.
pub open spec fn send_rejects(f: FrameView, frag_id: u8, allow_frag: bool, e: VstpError) -> bool {
    if !can_encode(f) {
        encode_rejects(f, e)
    } else if wire_len(f) <= MAX_DATAGRAM_SIZE {
        false
    } else if !allow_frag {
        e.is_protocol("Frame too large for one datagram"@)
    } else if fragment_count(wire_len(f)) > MAX_FRAGMENTS {
        e.is_protocol("Payload too large"@)
    } else {
        exists|i: int|
            0 <= i < fragment_count(wire_len(f)) && !can_encode(
                #[trigger] carrier_at(f, frag_id, i),
            ) && encode_rejects(carrier_at(f, frag_id, i), e) && (forall|j: int|
                0 <= j < i ==> can_encode(#[trigger] carrier_at(f, frag_id, j)))
    }
}

/// The datagrams of a list, each by the bytes it holds.
pub open spec fn datagrams_view(datagrams: Seq<Bytes>) -> Seq<Seq<u8>> {
    Seq::new(datagrams.len(), |i: int| frozen(datagrams[i]))
}

/// The frame that carries one fragment of a message.
pub fn fragment_carrier(frame: &Frame, fragment: &Fragment) -> (r: Frame)
    ensures
        r@ == carrier_spec(frame@, fragment@),
{
    let mut carrier = frame.duplicate();
    add_fragment_headers(&mut carrier, fragment);
    carrier.flags.insert(Flags::FRAG);
    carrier.payload = slice_to_vec(fragment.data.as_slice());
    carrier
}

/// Turns a frame into the datagrams that carry it.
///
/// The result is one datagram with the frame's encoding where that is at
/// most 1200 bytes. A longer encoding is cut into pieces of 1200 bytes, and
/// each piece travels in a carrier frame that bears `frag_id`, the piece's
/// index and the number of pieces. A frame that cannot be sent is an error.
pub fn plan_datagrams(frame: &Frame, frag_id: u8, allow_frag: bool) -> (r: Result<
    Vec<Bytes>,
    VstpError,
>)
    ensures
        match r {
            Ok(datagrams) => sendable(frame@, frag_id, allow_frag) && datagrams_view(datagrams@)
                == datagrams_spec(frame@, frag_id),
            Err(e) => send_rejects(frame@, frag_id, allow_frag, e),
        },
{
    let ghost f = frame@;
    let encoded = match encode_frame(frame) {
        Ok(b) => b,
        Err(e) => {
            assert(!can_encode(f)) by {
                lemma_rejected_has_no_encoding(f, e);
            }
            return Err(e);
        },
    };
    let bytes = bytes_as_slice(&encoded);
    proof {
        crate::wire_laws::lemma_encoding_layout(f);
    }
    if bytes.len() <= MAX_DATAGRAM_SIZE {
        let mut one: Vec<Bytes> = Vec::new();
        one.push(encoded);
        assert(datagrams_view(one@) =~= datagrams_spec(f, frag_id));
        return Ok(one);
    }
    if !allow_frag {
        return Err(VstpError::Protocol(String::from_str("Frame too large for one datagram")));
    }
    let fragments = match fragment_payload(bytes, frag_id) {
        Ok(list) => list,
        Err(e) => {
            return Err(e);
        },
    };
    let ghost count = fragment_count(wire_len(f));
    assert(bytes@ == encode_spec(f));
    assert(fragments_view(fragments@).len() == fragments@.len());
    assert(fragments_of(encode_spec(f), frag_id).len() == count);
    assert(fragments@.len() == count);
    let mut datagrams: Vec<Bytes> = Vec::new();
    let mut i: usize = 0;
    while i < fragments.len()
        invariant
            f == frame@,
            can_encode(f),
            i <= fragments@.len(),
            fragments@.len() == count,
            count == fragment_count(wire_len(f)),
            count <= MAX_FRAGMENTS,
            wire_len(f) > MAX_DATAGRAM_SIZE,
            allow_frag,
            fragments_view(fragments@) == fragments_of(encode_spec(f), frag_id),
            encode_spec(f).len() == wire_len(f),
            datagrams@.len() == i,
            forall|j: int| 0 <= j < i ==> can_encode(#[trigger] carrier_at(f, frag_id, j)),
            forall|j: int|
                0 <= j < i ==> frozen(#[trigger] datagrams@[j]) == encode_spec(
                    carrier_at(f, frag_id, j),
                ),
        decreases fragments@.len() - i,
    {
        let carrier = fragment_carrier(frame, &fragments[i]);
        proof {
            assert(fragments_view(fragments@)[i as int] == fragments@[i as int]@);
            assert(carrier@ == carrier_at(f, frag_id, i as int));
        }
        match encode_frame(&carrier) {
            Ok(b) => {
                datagrams.push(b);
            },
            Err(e) => {
                assert(!can_encode(carrier@)) by {
                    lemma_rejected_has_no_encoding(carrier@, e);
                }
                return Err(e);
            },
        }
        i += 1;
    }
    assert(datagrams_view(datagrams@) =~= datagrams_spec(f, frag_id));
    Ok(datagrams)
}

/// A frame that the encoder refuses has no encoding that fits a buffer.
pub proof fn lemma_rejected_has_no_encoding(f: FrameView, e: VstpError)
    requires
        encode_rejects(f, e),
    ensures
        !can_encode(f),
{
    if exists|i: int|
        0 <= i < f.headers.len() && crate::parser::header_fault_at(f.headers, i) is Some {
        let i = choose|i: int|
            0 <= i < f.headers.len() && crate::parser::header_fault_at(f.headers, i) is Some;
        if crate::wire::header_fits(f.headers[i]) {
            crate::parser::lemma_headers_bytes_monotone(f.headers, i + 1, f.headers.len() as int);
            assert(f.headers.take(f.headers.len() as int) =~= f.headers);
        }
    }
}

/// The headers without the three fragment headers, the others in their
/// order.
pub open spec fn strip_fragment_headers(headers: Seq<HeaderView>) -> Seq<HeaderView>
    decreases headers.len(),
{
    if headers.len() == 0 {
        Seq::empty()
    } else if is_fragment_key(headers.last().key) {
        strip_fragment_headers(headers.drop_last())
    } else {
        strip_fragment_headers(headers.drop_last()).push(headers.last())
    }
}

/// The frame that is delivered once a message is whole: the carrier that
/// completed it, without the fragment headers, with the joined bytes as
/// payload.
pub open spec fn reassembled_spec(carrier: FrameView, assembled: Seq<u8>) -> FrameView {
    FrameView {
        headers: strip_fragment_headers(carrier.headers),
        payload: assembled,
        ..carrier
    }
}

/// Whether a key is one of the three fragment keys.
pub fn is_fragment_header(key: &[u8]) -> (r: bool)
    ensures
        r == is_fragment_key(key@),
{
    let id_key = crate::fragments::frag_id_key_bytes();
    let index_key = crate::fragments::frag_index_key_bytes();
    let total_key = crate::fragments::frag_total_key_bytes();
    bytes_equal(key, id_key.as_slice()) || bytes_equal(key, index_key.as_slice()) || bytes_equal(
        key,
        total_key.as_slice(),
    )
}

/// Builds the frame that is delivered once a message is whole.
pub fn reassemble_frame(carrier: &Frame, assembled: Vec<u8>) -> (r: Frame)
    ensures
        r@ == reassembled_spec(carrier@, assembled@),
{
    let mut headers: Vec<Header> = Vec::new();
    let mut i: usize = 0;
    let ghost all = carrier@.headers;
    assert(all.take(0) =~= Seq::<HeaderView>::empty());
    assert(headers_view(headers@) =~= Seq::<HeaderView>::empty());
    while i < carrier.headers.len()
        invariant
            all == carrier@.headers,
            i <= carrier.headers@.len(),
            headers_view(headers@) == strip_fragment_headers(all.take(i as int)),
        decreases carrier.headers@.len() - i,
    {
        proof {
            let t = all.take(i + 1);
            assert(t.drop_last() =~= all.take(i as int));
            assert(t.last() == carrier.headers@[i as int]@);
        }
        let ghost kept = headers_view(headers@);
        if !is_fragment_header(carrier.headers[i].key.as_slice()) {
            headers.push(carrier.headers[i].duplicate());
            assert(headers_view(headers@) =~= kept.push(carrier.headers@[i as int]@));
        }
        i += 1;
    }
    assert(all.take(i as int) =~= all);
    Frame {
        version: carrier.version,
        typ: carrier.typ,
        flags: carrier.flags,
        headers,
        payload: assembled,
    }
}

/// What an incoming datagram leads to.
#[derive(Debug)]
pub enum DatagramOutcome {
    /// A frame for the application, and the acknowledgement that it asks
    /// for, if any.
    Delivered { frame: Frame, ack: Option<Frame> },
    /// A fragment was kept; its message is not whole yet.
    Pending,
    /// The datagram holds no whole valid frame and is dropped.
    Ignored,
    /// The datagram's fragment was refused.
    Failed(VstpError),
}

/// What an incoming datagram leads to, as a rule.
pub enum DatagramRule {
    /// A frame for the application, and the acknowledgement to send.
    Delivered { frame: FrameView, ack: Option<FrameView> },
    /// A fragment was kept.
    Pending,
    /// The datagram is dropped.
    Ignored,
    /// The datagram's fragment was refused.
    Failed(Reject),
}

/// The reassembly table after a datagram, and what the datagram leads to.
///
/// The datagram is decoded as one frame; what follows the frame is not
/// looked at. Without a whole valid frame the datagram is dropped. A frame
/// with the three fragment headers goes to the reassembly table; when it
/// completes its message, the reassembled frame is delivered. Any other
/// frame is delivered as it is. A delivered frame that asks for an
/// acknowledgement gets one.
pub open spec fn receive_spec(
    table: ReassemblyView,
    data: Seq<u8>,
    from: PeerAddr,
    now: u64,
) -> (ReassemblyView, DatagramRule) {
    match decode_spec(data, MAX_UDP_FRAME_SIZE as int) {
        Decoded::Frame { frame, consumed } => match fragment_info_spec(frame) {
            Some(frag) => {
                let step = add_fragment_spec(
                    table.sessions,
                    table.max_sessions,
                    table.timeout,
                    from,
                    frag,
                    now,
                );
                (
                    ReassemblyView { sessions: step.sessions, ..table },
                    match step.outcome {
                        Outcome::Pending => DatagramRule::Pending,
                        Outcome::Complete(bytes) => DatagramRule::Delivered {
                            frame: reassembled_spec(frame, bytes),
                            ack: ack_for_spec(reassembled_spec(frame, bytes)),
                        },
                        Outcome::Rejected(why) => DatagramRule::Failed(why),
                    },
                )
            },
            None => (table, DatagramRule::Delivered { frame, ack: ack_for_spec(frame) }),
        },
        _ => (table, DatagramRule::Ignored),
    }
}

/// Whether an outcome is what a rule asks for.
pub open spec fn outcome_follows(
    outcome: DatagramOutcome,
    rule: DatagramRule,
    max_sessions: usize,
) -> bool {
    match rule {
        DatagramRule::Delivered { frame, ack } => outcome matches DatagramOutcome::Delivered {
            frame: got,
            ack: got_ack,
        } && got@ == frame && (match ack {
            Some(a) => got_ack is Some && got_ack->0@ == a,
            None => got_ack is None,
        }),
        DatagramRule::Pending => outcome is Pending,
        DatagramRule::Ignored => outcome is Ignored,
        DatagramRule::Failed(why) => outcome matches DatagramOutcome::Failed(e)
            && crate::reassembly::reports_outcome(Err(e), Outcome::Rejected(why), max_sessions),
    }
}

/// Handles one datagram that came from `from` at `now`, a time in
/// milliseconds on a clock that does not go back.
pub fn process_datagram(
    reassembly: &mut ReassemblyManager,
    data: &[u8],
    from: PeerAddr,
    now: u64,
) -> (outcome: DatagramOutcome)
    requires
        old(reassembly).wf(),
    ensures
        final(reassembly).wf(),
        final(reassembly)@ == receive_spec(old(reassembly)@, data@, from, now).0,
        outcome_follows(
            outcome,
            receive_spec(old(reassembly)@, data@, from, now).1,
            old(reassembly)@.max_sessions,
        ),
{
    let mut buf = buf_from_slice(data);
    let frame = match try_decode_frame(&mut buf, MAX_UDP_FRAME_SIZE) {
        Ok(Some(frame)) => frame,
        Ok(None) => {
            return DatagramOutcome::Ignored;
        },
        Err(_) => {
            return DatagramOutcome::Ignored;
        },
    };
    match extract_fragment_info(&frame) {
        Some(fragment) => match reassembly.add_fragment_at(from, fragment, now) {
            Ok(Some(assembled)) => {
                let whole = reassemble_frame(&frame, assembled);
                let ack = ack_for(&whole);
                DatagramOutcome::Delivered { frame: whole, ack }
            },
            Ok(None) => DatagramOutcome::Pending,
            Err(e) => DatagramOutcome::Failed(e),
        },
        None => {
            let ack = ack_for(&frame);
            DatagramOutcome::Delivered { frame, ack }
        },
    }
}

} // verus!
