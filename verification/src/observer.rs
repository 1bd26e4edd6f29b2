//! What an observer is told of each delivered frame: whose session it
//! belongs to and how many bytes it took on the wire.

use vstd::prelude::*;
use crate::patterns::ErrorType;
use crate::peer::PeerAddr;
use crate::types::{Frame, HeaderView, SessionId};
use crate::wire::{headers_bytes, wire_len};

verus! {

/// The session id under which the frames of a UDP peer are observed. It
/// depends on the peer's address alone: for an IPv4 peer the address and
/// the port side by side, above bit 48 a one; for an IPv6 peer the low 112
/// bits of the address and the port side by side.
pub open spec fn udp_session_id_spec(peer: PeerAddr) -> SessionId {
    match peer {
        PeerAddr::V4 { ip, port } => (0x1_0000_0000_0000 + ip * 0x1_0000 + port) as u128,
        PeerAddr::V6 { ip, port, flowinfo, scope_id } => ((ip
            % 0x1_0000_0000_0000_0000_0000_0000_0000) * 0x1_0000 + port) as u128,
    }
}

/// The session id under which the frames of a UDP peer are observed.
pub fn udp_session_id(peer: PeerAddr) -> (id: SessionId)
    ensures
        id == udp_session_id_spec(peer),
{
    match peer {
        PeerAddr::V4 { ip, port } => 0x1_0000_0000_0000u128 + (ip as u128) * 0x1_0000u128
            + port as u128,
        PeerAddr::V6 { ip, port, flowinfo, scope_id } => (ip
            % 0x1_0000_0000_0000_0000_0000_0000_0000u128) * 0x1_0000u128 + port as u128,
    }
}

/// The length of the header block of the first `i` headers.
pub proof fn lemma_headers_bytes_len(headers: Seq<HeaderView>, i: int)
    requires
        0 <= i < headers.len(),
    ensures
        headers_bytes(headers.take(i + 1)).len() == headers_bytes(headers.take(i)).len() + 2
            + headers[i].key.len() + headers[i].value.len(),
{
    crate::parser::lemma_headers_bytes_take(headers, i);
}

/// The number of bytes that a frame takes on the wire, when that number
/// fits the machine's word.
pub fn frame_wire_len(frame: &Frame) -> (r: Option<usize>)
    ensures
        wire_len(frame@) <= usize::MAX ==> r == Some(wire_len(frame@) as usize),
        wire_len(frame@) > usize::MAX ==> r is None,
{
    let ghost hs = frame@.headers;
    let mut total: usize = 15;
    let mut i: usize = 0;
    assert(hs.take(0) =~= Seq::<HeaderView>::empty());
    while i < frame.headers.len()
        invariant
            hs == frame@.headers,
            i <= frame.headers@.len(),
            total == 15 + headers_bytes(hs.take(i as int)).len(),
        decreases frame.headers@.len() - i,
    {
        proof {
            lemma_headers_bytes_len(hs, i as int);
            assert(hs[i as int] == frame.headers@[i as int]@);
            crate::parser::lemma_headers_bytes_monotone(hs, i + 1, hs.len() as int);
            assert(hs.take(hs.len() as int) =~= hs);
        }
        let key_len = frame.headers[i].key.len();
        let value_len = frame.headers[i].value.len();
        if key_len > usize::MAX - 2 || value_len > usize::MAX - 2 - key_len {
            return None;
        }
        let piece: usize = 2 + key_len + value_len;
        if piece > usize::MAX - total {
            return None;
        }
        total = total + piece;
        i += 1;
    }
    assert(hs.take(i as int) =~= hs);
    if frame.payload.len() > usize::MAX - total {
        return None;
    }
    Some(total + frame.payload.len())
}

/// The counts of errors that an observer keeps per connection.
#[derive(Debug, Clone, Copy, PartialEq, Eq, Structural)]
pub struct ErrorCounters {
    pub crc_errors: u64,
    pub protocol_errors: u64,
    pub suspicious_flags: u64,
}

impl ErrorCounters {
    /// No error counted yet.
    pub fn new() -> (r: ErrorCounters)
        ensures
            r == (ErrorCounters { crc_errors: 0, protocol_errors: 0, suspicious_flags: 0 }),
    {
        ErrorCounters { crc_errors: 0, protocol_errors: 0, suspicious_flags: 0 }
    }

    /// The counters after one more error of a kind. A counter that has
    /// reached `u64::MAX` stays there.
    pub open spec fn recorded(self, kind: ErrorType) -> ErrorCounters {
        match kind {
            ErrorType::Crc => ErrorCounters {
                crc_errors: if self.crc_errors < u64::MAX {
                    (self.crc_errors + 1) as u64
                } else {
                    self.crc_errors
                },
                ..self
            },
            ErrorType::Protocol => ErrorCounters {
                protocol_errors: if self.protocol_errors < u64::MAX {
                    (self.protocol_errors + 1) as u64
                } else {
                    self.protocol_errors
                },
                ..self
            },
            ErrorType::SuspiciousFlag => ErrorCounters {
                suspicious_flags: if self.suspicious_flags < u64::MAX {
                    (self.suspicious_flags + 1) as u64
                } else {
                    self.suspicious_flags
                },
                ..self
            },
        }
    }

    /// Counts one more error of a kind.
    pub fn record_error(&mut self, kind: ErrorType)
        ensures
            *final(self) == old(self).recorded(kind),
    {
        match kind {
            ErrorType::Crc => {
                if self.crc_errors < u64::MAX {
                    self.crc_errors = self.crc_errors + 1;
                }
            },
            ErrorType::Protocol => {
                if self.protocol_errors < u64::MAX {
                    self.protocol_errors = self.protocol_errors + 1;
                }
            },
            ErrorType::SuspiciousFlag => {
                if self.suspicious_flags < u64::MAX {
                    self.suspicious_flags = self.suspicious_flags + 1;
                }
            },
        }
    }

    /// The checksum and protocol errors together, as far as 64 bits hold
    /// them.
    pub fn serious_errors(&self) -> (n: u64)
        ensures
            n == (if self.crc_errors + self.protocol_errors <= u64::MAX {
                self.crc_errors + self.protocol_errors
            } else {
                u64::MAX as int
            }),
    {
        if self.crc_errors > u64::MAX - self.protocol_errors {
            u64::MAX
        } else {
            self.crc_errors + self.protocol_errors
        }
    }
}

/// The sessions that an observer has blocked, each listed once.
#[derive(Debug)]
pub struct BlockList {
    sessions: Vec<SessionId>,
}

impl View for BlockList {
    type V = Set<SessionId>;

    /// The blocked sessions.
    closed spec fn view(&self) -> Set<SessionId> {
        self.sessions@.to_set()
    }
}

impl BlockList {
    /// No session blocked.
    pub fn new() -> (r: BlockList)
        ensures
            r@ == Set::<SessionId>::empty(),
    {
        let r = BlockList { sessions: Vec::new() };
        assert(r.sessions@.to_set() =~= Set::<SessionId>::empty());
        r
    }

    /// Whether a session is blocked.
    pub fn is_blocked(&self, session_id: SessionId) -> (r: bool)
        ensures
            r == self@.contains(session_id),
    {
        let mut i: usize = 0;
        while i < self.sessions.len()
            invariant
                i <= self.sessions@.len(),
                forall|j: int| 0 <= j < i ==> self.sessions@[j] != session_id,
            decreases self.sessions@.len() - i,
        {
            if self.sessions[i] == session_id {
                assert(self.sessions@.contains(session_id));
                return true;
            }
            i += 1;
        }
        assert(!self.sessions@.contains(session_id));
        false
    }

    /// Blocks a session, and says whether it was not blocked before.
    pub fn block(&mut self, session_id: SessionId) -> (fresh: bool)
        ensures
            final(self)@ == old(self)@.insert(session_id),
            fresh == !old(self)@.contains(session_id),
    {
        if self.is_blocked(session_id) {
            assert(self@ =~= old(self)@.insert(session_id));
            false
        } else {
            self.sessions.push(session_id);
            assert(self.sessions@.to_set() =~= old(self).sessions@.to_set().insert(session_id)) by {
                assert forall|x: SessionId| #[trigger]
                    self.sessions@.to_set().contains(x) == old(self).sessions@.to_set().insert(
                        session_id,
                    ).contains(x) by {
                    if self.sessions@.contains(x) {
                        let k = choose|k: int| 0 <= k < self.sessions@.len() && self.sessions@[k] == x;
                        if k < old(self).sessions@.len() {
                            assert(old(self).sessions@[k] == x);
                        }
                    }
                    if old(self).sessions@.contains(x) {
                        let k = choose|k: int|
                            0 <= k < old(self).sessions@.len() && old(self).sessions@[k] == x;
                        assert(self.sessions@[k] == x);
                    }
                    if x == session_id {
                        assert(self.sessions@[self.sessions@.len() - 1] == x);
                    }
                }
            }
            true
        }
    }

    /// Lifts the block of a session.
    pub fn unblock(&mut self, session_id: SessionId)
        ensures
            final(self)@ == old(self)@.remove(session_id),
    {
        let mut kept: Vec<SessionId> = Vec::new();
        let mut i: usize = 0;
        while i < self.sessions.len()
            invariant
                i <= self.sessions@.len(),
                self.sessions@ == old(self).sessions@,
                forall|x: SessionId|
                    kept@.contains(x) <==> (x != session_id && exists|j: int|
                        0 <= j < i && #[trigger] self.sessions@[j] == x),
            decreases self.sessions@.len() - i,
        {
            let id = self.sessions[i];
            let ghost before = kept@;
            if id != session_id {
                kept.push(id);
                assert forall|x: SessionId| kept@.contains(x) <==> (x != session_id && exists|
                    j: int,
                | 0 <= j < i + 1 && #[trigger] self.sessions@[j] == x) by {
                    if kept@.contains(x) {
                        let k = choose|k: int| 0 <= k < kept@.len() && kept@[k] == x;
                        if k < before.len() {
                            assert(before[k] == x);
                            assert(before.contains(x));
                        } else {
                            assert(self.sessions@[i as int] == x);
                        }
                    }
                    if x != session_id && exists|j: int|
                        0 <= j < i + 1 && #[trigger] self.sessions@[j] == x {
                        let j = choose|j: int| 0 <= j < i + 1 && #[trigger] self.sessions@[j] == x;
                        if j < i {
                            assert(before.contains(x));
                            let k = choose|k: int| 0 <= k < before.len() && before[k] == x;
                            assert(kept@[k] == x);
                        } else {
                            assert(kept@[kept@.len() - 1] == x);
                        }
                    }
                }
            } else {
                assert forall|x: SessionId| kept@.contains(x) <==> (x != session_id && exists|
                    j: int,
                | 0 <= j < i + 1 && #[trigger] self.sessions@[j] == x) by {
                    if x != session_id && exists|j: int|
                        0 <= j < i + 1 && #[trigger] self.sessions@[j] == x {
                        let j = choose|j: int| 0 <= j < i + 1 && #[trigger] self.sessions@[j] == x;
                        assert(j < i);
                    }
                }
            }
            i += 1;
        }
        proof {
            assert forall|x: SessionId| #[trigger]
                kept@.to_set().contains(x) == old(self).sessions@.to_set().remove(
                    session_id,
                ).contains(x) by {
                if old(self).sessions@.contains(x) {
                    let k = choose|k: int|
                        0 <= k < old(self).sessions@.len() && old(self).sessions@[k] == x;
                    assert(self.sessions@[k] == x);
                }
            }
            assert(kept@.to_set() =~= old(self).sessions@.to_set().remove(session_id));
        }
        self.sessions = kept;
    }
}

} // verus!
