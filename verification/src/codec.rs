//! Frames on a byte stream: a codec that takes one frame at a time from a
//! buffer, and a framer that keeps the buffers of one connection.

use vstd::prelude::*;
use bytes::{Bytes, BytesMut};
use crate::buffers::{
    buf_extend_from_slice, buf_freeze, buf_len, buf_new, buf_split, bytes_as_slice, frozen, held,
};
use crate::error::VstpError;
use crate::parser::{decoder_did, encode_frame, encode_rejects, reports_fault, try_decode_frame};
use crate::types::{Frame, FrameView, VSTP_VERSION};
use crate::udp::can_encode;
use crate::wire::{decode_spec, encodable, encode_spec, wire_len, Decoded, WireFault};
use crate::wire_laws::{lemma_decode_encode, lemma_decode_sound, lemma_encoding_layout};

verus! {

/// The frame size limit of a codec made by `default`: 8 MiB.
pub const DEFAULT_MAX_FRAME_SIZE: usize = 8388608;

/// Takes frames from a buffer and puts them into one, with a limit on the
/// size of the frames it takes.
#[derive(Debug, Clone, Copy, PartialEq, Eq, Structural)]
pub struct VstpFrameCodec {
    pub max_frame_size: usize,
}

/// Whether `e` is the error owed when a frame cannot be appended to a
/// buffer that holds `len` bytes: the encoder's error, or, for a frame
/// whose encoding would make the buffer longer than this machine allows,
/// a frame too large by the room that is left.
pub open spec fn append_rejects(f: FrameView, len: nat, e: VstpError) -> bool {
    if !can_encode(f) {
        encode_rejects(f, e)
    } else {
        &&& len + wire_len(f) > isize::MAX
        &&& e == (VstpError::FrameTooLarge {
            size: wire_len(f) as usize,
            limit: (if len > isize::MAX {
                0
            } else {
                isize::MAX - len
            }) as usize,
        })
    }
}

impl VstpFrameCodec {
    /// A codec with the given limit.
    pub fn new(max_frame_size: usize) -> (r: VstpFrameCodec)
        ensures
            r.max_frame_size == max_frame_size,
    {
        VstpFrameCodec { max_frame_size }
    }

    /// A codec with the limit of 8 MiB.
    pub fn default() -> (r: VstpFrameCodec)
        ensures
            r.max_frame_size == DEFAULT_MAX_FRAME_SIZE,
    {
        VstpFrameCodec::new(DEFAULT_MAX_FRAME_SIZE)
    }

    /// Takes one frame from the front of `src`, if a whole one is there.
    pub fn decode(&mut self, src: &mut BytesMut) -> (r: Result<Option<Frame>, VstpError>)
        ensures
            *final(self) == *old(self),
            decoder_did(
                decode_spec(held(*old(src)), old(self).max_frame_size as int),
                held(*old(src)),
                held(*final(src)),
                r,
                old(self).max_frame_size,
            ),
    {
        try_decode_frame(src, self.max_frame_size)
    }

    /// Appends the encoding of a frame to `dst`. On an error `dst` is as it
    /// was.
    pub fn encode(&mut self, item: Frame, dst: &mut BytesMut) -> (r: Result<(), VstpError>)
        ensures
            *final(self) == *old(self),
            match r {
                Ok(_) => can_encode(item@) && held(*final(dst)) == held(*old(dst)) + encode_spec(
                    item@,
                ),
                Err(e) => append_rejects(item@, held(*old(dst)).len(), e) && held(*final(dst))
                    == held(*old(dst)),
            },
    {
        let encoded = match encode_frame(&item) {
            Ok(b) => b,
            Err(e) => {
                proof {
                    crate::udp::lemma_rejected_has_no_encoding(item@, e);
                }
                return Err(e);
            },
        };
        let bytes = bytes_as_slice(&encoded);
        proof {
            lemma_encoding_layout(item@);
        }
        let len = buf_len(dst);
        let room: usize = if len > isize::MAX as usize {
            0
        } else {
            isize::MAX as usize - len
        };
        if bytes.len() > room {
            return Err(VstpError::FrameTooLarge { size: bytes.len(), limit: room });
        }
        buf_extend_from_slice(dst, bytes);
        Ok(())
    }
}

/// What a stream of bytes holds: the frames at its front, the bytes left
/// after them, and the fault that stopped the decoding, if one did.
pub struct StreamDecoded {
    pub frames: Seq<FrameView>,
    pub rest: Seq<u8>,
    pub fault: Option<WireFault>,
}

/// What a stream of bytes holds: frame after frame is decoded from the
/// front until the bytes left are not a whole frame, or are a faulty one.
pub open spec fn decode_stream(buf: Seq<u8>, max_frame_size: int) -> StreamDecoded
    decreases buf.len(),
{
    match decode_spec(buf, max_frame_size) {
        Decoded::NeedMore => StreamDecoded { frames: Seq::empty(), rest: buf, fault: None },
        Decoded::Fault { fault, consumed } => StreamDecoded {
            frames: Seq::empty(),
            rest: buf.skip(consumed),
            fault: Some(fault),
        },
        Decoded::Frame { frame, consumed } => if 0 < consumed <= buf.len() {
            let after = decode_stream(buf.skip(consumed), max_frame_size);
            StreamDecoded {
                frames: seq![frame] + after.frames,
                rest: after.rest,
                fault: after.fault,
            }
        } else {
            StreamDecoded { frames: Seq::empty(), rest: buf, fault: None }
        },
    }
}

/// The encodings of a list of frames, one after the other.
pub open spec fn encode_all(frames: Seq<FrameView>) -> Seq<u8>
    decreases frames.len(),
{
    if frames.len() == 0 {
        Seq::empty()
    } else {
        encode_spec(frames[0]) + encode_all(frames.drop_first())
    }
}

/// Multi-frame: decoding the encodings of a list of frames, one after the
/// other, gives the frames in their order and leaves nothing.
pub proof fn lemma_decode_stream_encode_all(frames: Seq<FrameView>, max_frame_size: int)
    requires
        forall|i: int|
            0 <= i < frames.len() ==> encodable(#[trigger] frames[i]) && frames[i].version
                == VSTP_VERSION && wire_len(frames[i]) <= max_frame_size,
    ensures
        decode_stream(encode_all(frames), max_frame_size) == (StreamDecoded {
            frames,
            rest: Seq::empty(),
            fault: None,
        }),
    decreases frames.len(),
{
    let buf = encode_all(frames);
    if frames.len() == 0 {
        assert(decode_stream(buf, max_frame_size).frames =~= frames);
    } else {
        let first = frames[0];
        let others = frames.drop_first();
        assert(encodable(first));
        lemma_decode_encode(first, encode_all(others), max_frame_size);
        lemma_encoding_layout(first);
        assert(buf.skip(wire_len(first)) =~= encode_all(others));
        assert forall|i: int| 0 <= i < others.len() implies encodable(#[trigger] others[i])
            && others[i].version == VSTP_VERSION && wire_len(others[i]) <= max_frame_size by {
            assert(others[i] == frames[i + 1]);
        }
        lemma_decode_stream_encode_all(others, max_frame_size);
        assert(seq![first] + others =~= frames);
    }
}

/// Split delivery: however a stream is cut into pieces, the frames come
/// out the same. What a buffer holds after more bytes arrive is the frames
/// it held before, followed by what the bytes left over and the new bytes
/// hold together.
pub proof fn lemma_stream_in_pieces(buf: Seq<u8>, more: Seq<u8>, max_frame_size: int)
    requires
        decode_stream(buf, max_frame_size).fault is None,
    ensures
        decode_stream(buf + more, max_frame_size) == (StreamDecoded {
            frames: decode_stream(buf, max_frame_size).frames + decode_stream(
                decode_stream(buf, max_frame_size).rest + more,
                max_frame_size,
            ).frames,
            rest: decode_stream(
                decode_stream(buf, max_frame_size).rest + more,
                max_frame_size,
            ).rest,
            fault: decode_stream(
                decode_stream(buf, max_frame_size).rest + more,
                max_frame_size,
            ).fault,
        }),
    decreases buf.len(),
{
    let whole = decode_stream(buf + more, max_frame_size);
    let later = decode_stream(decode_stream(buf, max_frame_size).rest + more, max_frame_size);
    match decode_spec(buf, max_frame_size) {
        Decoded::NeedMore => {
            assert(Seq::<FrameView>::empty() + later.frames =~= later.frames);
        },
        Decoded::Fault { fault, consumed } => {},
        Decoded::Frame { frame, consumed } => {
            lemma_decode_sound(buf, max_frame_size, frame, consumed);
            crate::wire_laws::lemma_decoded_is_stable(buf, more, max_frame_size);
            let tail = buf.skip(consumed);
            assert((buf + more).skip(consumed) =~= tail + more);
            lemma_stream_in_pieces(tail, more, max_frame_size);
            let after = decode_stream(tail, max_frame_size);
            assert(seq![frame] + (after.frames + later.frames) =~= (seq![frame] + after.frames)
                + later.frames);
        },
    }
}

/// The frames that a call of `feed` hands out, and the error that ended
/// the decoding, if one did.
#[derive(Debug)]
pub struct Fed {
    pub frames: Vec<Frame>,
    pub error: Option<VstpError>,
}

/// The receive buffer and the send buffer of one connection.
#[derive(Debug)]
pub struct StreamFramer {
    codec: VstpFrameCodec,
    rx: BytesMut,
    tx: BytesMut,
}

/// What a framer is: its limit and the bytes in its two buffers.
pub struct StreamFramerView {
    pub max_frame_size: usize,
    pub received: Seq<u8>,
    pub outgoing: Seq<u8>,
}

impl View for StreamFramer {
    type V = StreamFramerView;

    closed spec fn view(&self) -> StreamFramerView {
        StreamFramerView {
            max_frame_size: self.codec.max_frame_size,
            received: held(self.rx),
            outgoing: held(self.tx),
        }
    }
}

/// Whether what `feed` handed out is what the stream holds.
pub open spec fn fed_is(fed: Fed, expected: StreamDecoded, max_frame_size: usize) -> bool {
    &&& frames_view(fed.frames@) == expected.frames
    &&& match expected.fault {
        Some(fault) => fed.error is Some && reports_fault(fed.error->0, fault, max_frame_size),
        None => fed.error is None,
    }
}

/// The frames of a list, each by what it is.
pub open spec fn frames_view(frames: Seq<Frame>) -> Seq<FrameView> {
    Seq::new(frames.len(), |i: int| frames[i]@)
}

impl StreamFramer {
    /// A framer with empty buffers and the given limit on the frame size.
    pub fn new(max_frame_size: usize) -> (r: StreamFramer)
        ensures
            r@ == (StreamFramerView {
                max_frame_size,
                received: Seq::empty(),
                outgoing: Seq::empty(),
            }),
    {
        StreamFramer { codec: VstpFrameCodec::new(max_frame_size), rx: buf_new(), tx: buf_new() }
    }

    /// The number of received bytes that are not yet part of a frame handed
    /// out.
    pub fn buffered(&self) -> (n: usize)
        ensures
            n == self@.received.len(),
    {
        buf_len(&self.rx)
    }

    /// Takes in bytes from the stream and hands out the frames that are now
    /// whole, in their order. The bytes left over stay for the next call.
    /// After an error no further frame is decoded in this call.
    pub fn feed(&mut self, bytes: &[u8]) -> (fed: Fed)
        requires
            old(self)@.received.len() + bytes@.len() <= isize::MAX,
        ensures
            final(self)@.max_frame_size == old(self)@.max_frame_size,
            final(self)@.outgoing == old(self)@.outgoing,
            final(self)@.received == decode_stream(
                old(self)@.received + bytes@,
                old(self)@.max_frame_size as int,
            ).rest,
            fed_is(
                fed,
                decode_stream(old(self)@.received + bytes@, old(self)@.max_frame_size as int),
                old(self)@.max_frame_size,
            ),
    {
        buf_extend_from_slice(&mut self.rx, bytes);
        let ghost start = held(self.rx);
        let ghost max = self.codec.max_frame_size;
        let mut frames: Vec<Frame> = Vec::new();
        let mut error: Option<VstpError> = None;
        assert(frames_view(frames@) =~= Seq::<FrameView>::empty());
        assert(Seq::<FrameView>::empty() + decode_stream(start, max as int).frames
            =~= decode_stream(start, max as int).frames);
        loop
            invariant_except_break
                error is None,
                self.codec.max_frame_size == max,
                held(self.tx) == old(self)@.outgoing,
                decode_stream(start, max as int).frames == frames_view(frames@)
                    + decode_stream(held(self.rx), max as int).frames,
                decode_stream(start, max as int).rest == decode_stream(
                    held(self.rx),
                    max as int,
                ).rest,
                decode_stream(start, max as int).fault == decode_stream(
                    held(self.rx),
                    max as int,
                ).fault,
            ensures
                self.codec.max_frame_size == max,
                held(self.tx) == old(self)@.outgoing,
                decode_stream(start, max as int).frames == frames_view(frames@),
                decode_stream(start, max as int).rest == held(self.rx),
                match decode_stream(start, max as int).fault {
                    Some(fault) => error is Some && reports_fault(error->0, fault, max),
                    None => error is None,
                },
            decreases held(self.rx).len(),
        {
            let ghost before = held(self.rx);
            let ghost done = frames_view(frames@);
            match self.codec.decode(&mut self.rx) {
                Ok(Some(frame)) => {
                    proof {
                        let d = decode_spec(before, max as int);
                        lemma_decode_sound(before, max as int, d->Frame_frame, d->Frame_consumed);
                        assert(done + (seq![frame@] + decode_stream(
                            held(self.rx),
                            max as int,
                        ).frames) =~= done.push(frame@) + decode_stream(
                            held(self.rx),
                            max as int,
                        ).frames);
                    }
                    frames.push(frame);
                    assert(frames_view(frames@) =~= done.push(frame@));
                },
                Ok(None) => {
                    assert(done + Seq::<FrameView>::empty() =~= done);
                    break ;
                },
                Err(e) => {
                    assert(done + Seq::<FrameView>::empty() =~= done);
                    error = Some(e);
                    break ;
                },
            }
        }
        Fed { frames, error }
    }

    /// Appends the encoding of a frame to the send buffer. On an error the
    /// send buffer is as it was.
    pub fn write(&mut self, frame: Frame) -> (r: Result<(), VstpError>)
        ensures
            final(self)@.max_frame_size == old(self)@.max_frame_size,
            final(self)@.received == old(self)@.received,
            match r {
                Ok(_) => can_encode(frame@) && final(self)@.outgoing == old(self)@.outgoing
                    + encode_spec(frame@),
                Err(e) => append_rejects(frame@, old(self)@.outgoing.len(), e)
                    && final(self)@.outgoing == old(self)@.outgoing,
            },
    {
        let mut codec = self.codec;
        codec.encode(frame, &mut self.tx)
    }

    /// Hands out the bytes to be sent and empties the send buffer.
    pub fn take_outgoing(&mut self) -> (out: Bytes)
        ensures
            final(self)@.max_frame_size == old(self)@.max_frame_size,
            final(self)@.received == old(self)@.received,
            final(self)@.outgoing == Seq::<u8>::empty(),
            frozen(out) == old(self)@.outgoing,
    {
        let all = buf_split(&mut self.tx);
        buf_freeze(all)
    }
}

} // verus!
