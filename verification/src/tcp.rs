//! What a TCP endpoint decides: the session ids of a server, and the life
//! of one connection between the bytes that arrive and the frames that the
//! application sees.

use vstd::prelude::*;
use bytes::Bytes;
use crate::buffers::frozen;
use crate::codec::{
    append_rejects, decode_stream, fed_is, Fed, StreamFramer, StreamFramerView,
    DEFAULT_MAX_FRAME_SIZE,
};
use crate::udp::can_encode;
use crate::wire::encode_spec;
use crate::error::VstpError;
use crate::peer::PeerAddr;
use crate::types::{Frame, FrameType, FrameView, SessionId, VSTP_VERSION};

verus! {

/// Hands out the session ids of a server: 2, 3, 4 and so on.
#[derive(Debug, Clone, Copy, PartialEq, Eq, Structural)]
pub struct SessionIds {
    pub last: u128,
}

impl SessionIds {
    /// The ids of a new server: none handed out yet.
    pub fn new() -> (r: SessionIds)
        ensures
            r.last == 1,
    {
        SessionIds { last: 1 }
    }

    /// The next session id: one more than the last. When the ids are used
    /// up there is none, and nothing changes.
    pub fn allocate(&mut self) -> (id: Option<SessionId>)
        ensures
            old(self).last < u128::MAX ==> id == Some((old(self).last + 1) as u128)
                && final(self).last == old(self).last + 1,
            old(self).last == u128::MAX ==> id is None && *final(self) == *old(self),
    {
        if self.last == u128::MAX {
            None
        } else {
            self.last = self.last + 1;
            Some(self.last)
        }
    }
}

/// What an observer says of a frame.
#[derive(Debug, Clone, Copy, PartialEq, Eq, Structural)]
pub enum Verdict {
    /// The frame may go to the application.
    Allow,
    /// The frame must not go to the application, and the session ends.
    Veto,
}

/// Where a connection stands.
#[derive(Debug, Clone, Copy, PartialEq, Eq, Structural)]
pub enum ConnState {
    /// Frames flow.
    Open,
    /// Bytes arrived that are no frame; the connection is terminated.
    Failed,
    /// An observer refused a frame; the session is terminated.
    Vetoed,
    /// The connection was closed.
    Closed,
}

/// What a connection is.
pub struct TcpConnectionView {
    pub session_id: SessionId,
    pub peer: PeerAddr,
    pub state: ConnState,
    pub framer: StreamFramerView,
}

/// One accepted connection of a server.
#[derive(Debug)]
pub struct TcpConnection {
    session_id: SessionId,
    peer: PeerAddr,
    state: ConnState,
    framer: StreamFramer,
}

impl View for TcpConnection {
    type V = TcpConnectionView;

    closed spec fn view(&self) -> TcpConnectionView {
        TcpConnectionView {
            session_id: self.session_id,
            peer: self.peer,
            state: self.state,
            framer: self.framer@,
        }
    }
}

/// Whether `e` is the error that a connection in the given state owes a
/// reader: a terminated session after a veto, else a closed connection.
pub open spec fn read_refused(state: ConnState, e: VstpError) -> bool {
    match state {
        ConnState::Open => false,
        ConnState::Vetoed => e is SessionTerminated,
        _ => e is ConnectionClosed,
    }
}

/// The connection after bytes have arrived, as a view.
pub open spec fn after_bytes(c: TcpConnectionView, bytes: Seq<u8>) -> TcpConnectionView {
    let stream = decode_stream(c.framer.received + bytes, c.framer.max_frame_size as int);
    TcpConnectionView {
        state: if stream.fault is Some {
            ConnState::Failed
        } else {
            ConnState::Open
        },
        framer: StreamFramerView { received: stream.rest, ..c.framer },
        ..c
    }
}

/// Whether a frame on which an observer has given its verdict goes to the
/// application: on an open connection, when the observer allows it.
pub open spec fn delivers(c: TcpConnectionView, verdict: Verdict) -> bool {
    c.state == ConnState::Open && verdict == Verdict::Allow
}

/// Whether a connection takes in bytes: while it is open.
pub open spec fn accepts_bytes(c: TcpConnectionView) -> bool {
    c.state == ConnState::Open
}

/// The connection after an observer has given its verdict on a frame.
pub open spec fn after_verdict(c: TcpConnectionView, verdict: Verdict) -> TcpConnectionView {
    if c.state == ConnState::Open && verdict == Verdict::Veto {
        TcpConnectionView { state: ConnState::Vetoed, ..c }
    } else {
        c
    }
}

impl TcpConnection {
    /// An open connection with empty buffers and the default limit on the
    /// frame size.
    pub fn new(session_id: SessionId, peer: PeerAddr) -> (r: TcpConnection)
        ensures
            r@ == (TcpConnectionView {
                session_id,
                peer,
                state: ConnState::Open,
                framer: StreamFramerView {
                    max_frame_size: DEFAULT_MAX_FRAME_SIZE,
                    received: Seq::empty(),
                    outgoing: Seq::empty(),
                },
            }),
    {
        TcpConnection {
            session_id,
            peer,
            state: ConnState::Open,
            framer: StreamFramer::new(DEFAULT_MAX_FRAME_SIZE),
        }
    }

    /// The session id.
    pub fn session_id(&self) -> (r: SessionId)
        ensures
            r == self@.session_id,
    {
        self.session_id
    }

    /// The peer's address.
    pub fn peer_addr(&self) -> (r: PeerAddr)
        ensures
            r == self@.peer,
    {
        self.peer
    }

    /// Where the connection stands.
    pub fn state(&self) -> (r: ConnState)
        ensures
            r == self@.state,
    {
        self.state
    }

    /// Takes in bytes that were read from the stream.
    ///
    /// On an open connection the result holds the frames that are now
    /// whole, in the order in which they arrived; when bytes turn out to be
    /// no frame, the error is in the result as well, behind the frames that
    /// came before it, and the connection is terminated. On a connection
    /// that is not open the bytes are refused, and nothing changes.
    pub fn on_bytes(&mut self, bytes: &[u8]) -> (r: Result<Fed, VstpError>)
        requires
            old(self)@.framer.received.len() + bytes@.len() <= isize::MAX,
        ensures
            accepts_bytes(old(self)@) ==> r is Ok && final(self)@ == after_bytes(
                old(self)@,
                bytes@,
            ) && fed_is(
                r->Ok_0,
                decode_stream(
                    old(self)@.framer.received + bytes@,
                    old(self)@.framer.max_frame_size as int,
                ),
                old(self)@.framer.max_frame_size,
            ),
            !accepts_bytes(old(self)@) ==> r is Err && read_refused(old(self)@.state, r->Err_0)
                && final(self)@ == old(self)@,
    {
        match self.state {
            ConnState::Open => {},
            ConnState::Vetoed => {
                return Err(VstpError::SessionTerminated);
            },
            _ => {
                return Err(VstpError::ConnectionClosed);
            },
        }
        let fed = self.framer.feed(bytes);
        if fed.error.is_some() {
            self.state = ConnState::Failed;
        }
        Ok(fed)
    }

    /// Records what an observer said of a decoded frame, and says whether
    /// the frame goes to the application: it does when the connection is
    /// open and the observer allows it. A veto terminates the session.
    pub fn on_verdict(&mut self, verdict: Verdict) -> (deliver: bool)
        ensures
            final(self)@ == after_verdict(old(self)@, verdict),
            deliver == delivers(old(self)@, verdict),
    {
        match self.state {
            ConnState::Open => match verdict {
                Verdict::Allow => true,
                Verdict::Veto => {
                    self.state = ConnState::Vetoed;
                    false
                },
            },
            _ => false,
        }
    }

    /// The number of received bytes that are not yet part of a frame handed
    /// out.
    pub fn buffered(&self) -> (n: usize)
        ensures
            n == self@.framer.received.len(),
    {
        self.framer.buffered()
    }

    /// Queues a frame for sending: on an open connection its encoding is
    /// appended to the bytes to be sent. A connection that is not open
    /// refuses the frame, and nothing changes.
    pub fn send(&mut self, frame: Frame) -> (r: Result<(), VstpError>)
        ensures
            final(self)@.session_id == old(self)@.session_id,
            final(self)@.peer == old(self)@.peer,
            final(self)@.state == old(self)@.state,
            final(self)@.framer.max_frame_size == old(self)@.framer.max_frame_size,
            final(self)@.framer.received == old(self)@.framer.received,
            old(self)@.state == ConnState::Open ==> match r {
                Ok(_) => can_encode(frame@) && final(self)@.framer.outgoing == old(
                    self,
                )@.framer.outgoing + encode_spec(frame@),
                Err(e) => append_rejects(frame@, old(self)@.framer.outgoing.len(), e)
                    && final(self)@.framer.outgoing == old(self)@.framer.outgoing,
            },
            old(self)@.state != ConnState::Open ==> r is Err && read_refused(
                old(self)@.state,
                r->Err_0,
            ) && final(self)@ == old(self)@,
    {
        match self.state {
            ConnState::Open => {},
            ConnState::Vetoed => {
                return Err(VstpError::SessionTerminated);
            },
            _ => {
                return Err(VstpError::ConnectionClosed);
            },
        }
        self.framer.write(frame)
    }

    /// Hands out the bytes to be sent and forgets them.
    pub fn take_outgoing(&mut self) -> (out: Bytes)
        ensures
            final(self)@ == (TcpConnectionView {
                framer: StreamFramerView { outgoing: Seq::empty(), ..old(self)@.framer },
                ..old(self)@
            }),
            frozen(out) == old(self)@.framer.outgoing,
    {
        self.framer.take_outgoing()
    }

    /// Closes the connection, unless it is terminated already.
    pub fn close(&mut self)
        ensures
            final(self)@ == (TcpConnectionView {
                state: if old(self)@.state == ConnState::Open {
                    ConnState::Closed
                } else {
                    old(self)@.state
                },
                ..old(self)@
            }),
    {
        match self.state {
            ConnState::Open => {
                self.state = ConnState::Closed;
            },
            _ => {},
        }
    }
}

/// Observer veto: when an observer refuses a frame on an open connection,
/// the frame does not go to the application and the session is terminated;
/// from then on the connection accepts no bytes, whatever verdict follows
/// delivers nothing, and the connection stays as it is.
pub proof fn lemma_veto_is_final(c: TcpConnectionView, later: Verdict)
    requires
        c.state == ConnState::Open,
    ensures
        !delivers(c, Verdict::Veto),
        !accepts_bytes(after_verdict(c, Verdict::Veto)),
        !delivers(after_verdict(c, Verdict::Veto), later),
        after_verdict(after_verdict(c, Verdict::Veto), later) == after_verdict(c, Verdict::Veto),
        forall|e: VstpError|
            read_refused(after_verdict(c, Verdict::Veto).state, e) ==> e is SessionTerminated,
{
}

/// The frame that greets the server.
pub fn hello_frame() -> (r: Frame)
    ensures
        r@ == (FrameView {
            version: VSTP_VERSION,
            typ: FrameType::Hello,
            flags: 0,
            headers: Seq::empty(),
            payload: Seq::empty(),
        }),
{
    Frame::new(FrameType::Hello)
}

/// The frame that carries a payload of the application.
pub fn data_frame(payload: Vec<u8>) -> (r: Frame)
    ensures
        r@ == (FrameView {
            version: VSTP_VERSION,
            typ: FrameType::Data,
            flags: 0,
            headers: Seq::empty(),
            payload: payload@,
        }),
{
    Frame::new(FrameType::Data).with_payload(payload)
}

/// The frame that a client sends before it closes its side.
pub fn bye_frame() -> (r: Frame)
    ensures
        r@ == (FrameView {
            version: VSTP_VERSION,
            typ: FrameType::Bye,
            flags: 0,
            headers: Seq::empty(),
            payload: Seq::empty(),
        }),
{
    Frame::new(FrameType::Bye)
}

} // verus!
