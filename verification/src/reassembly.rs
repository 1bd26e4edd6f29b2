//! Fragments of oversize datagrams and their reassembly.
//!
//! A message too large for one datagram travels as fragments, each tagged
//! with the message's fragment id, its own index and the total count. The
//! receiver keeps one entry per peer and fragment id, fills it as fragments
//! arrive in any order, and hands the bytes out once all are there.

use vstd::prelude::*;

use vstd::string::StringExecFns;
use std::time::Instant;
use crate::clock::{clock_elapsed_ms, clock_now};
use crate::error::VstpError;
use crate::peer::PeerAddr;

verus! {

/// The most bytes that one datagram carries.
pub const MAX_DATAGRAM_SIZE: usize = 1200;

/// The most fragments that one message is split into.
pub const MAX_FRAGMENTS: usize = 255;

/// The milliseconds after which an unfinished message is dropped.
pub const REASSEMBLY_TIMEOUT_MS: u64 = 30000;

/// The most messages that are reassembled at one time.
pub const MAX_REASSEMBLY_SESSIONS: usize = 1000;

/// What a fragment is.
pub struct FragmentView {
    pub frag_id: u8,
    pub frag_index: u8,
    pub frag_total: u8,
    pub data: Seq<u8>,
}

/// One fragment of a larger message.
#[derive(Debug, Clone)]
pub struct Fragment {
    pub frag_id: u8,
    pub frag_index: u8,
    pub frag_total: u8,
    pub data: Vec<u8>,
}

impl View for Fragment {
    type V = FragmentView;

    open spec fn view(&self) -> FragmentView {
        FragmentView {
            frag_id: self.frag_id,
            frag_index: self.frag_index,
            frag_total: self.frag_total,
            data: self.data@,
        }
    }
}

/// What an entry of the reassembly table is: whose message it collects,
/// how many fragments the message has, which of them have come, and when
/// the first one came.
pub struct SessionView {
    pub peer: PeerAddr,
    pub frag_id: u8,
    pub total: u8,
    pub chunks: Seq<Option<Seq<u8>>>,
    pub created_at: u64,
}

/// Whether every fragment has come.
pub open spec fn all_present(chunks: Seq<Option<Seq<u8>>>) -> bool {
    forall|i: int| 0 <= i < chunks.len() ==> (#[trigger] chunks[i]) is Some
}

/// The fragments that have come, joined in the order of their indices.
pub open spec fn concat_chunks(chunks: Seq<Option<Seq<u8>>>) -> Seq<u8>
    decreases chunks.len(),
{
    if chunks.len() == 0 {
        Seq::empty()
    } else {
        concat_chunks(chunks.drop_last()) + (match chunks.last() {
            Some(data) => data,
            None => Seq::empty(),
        })
    }
}

/// Whether an entry is older than the timeout allows.
pub open spec fn expired(s: SessionView, now: u64, timeout: u64) -> bool {
    now - s.created_at > timeout
}

/// The entries that are not older than the timeout allows, in their order.
pub open spec fn live_sessions(sessions: Seq<SessionView>, now: u64, timeout: u64) -> Seq<
    SessionView,
>
    decreases sessions.len(),
{
    if sessions.len() == 0 {
        Seq::empty()
    } else if expired(sessions.last(), now, timeout) {
        live_sessions(sessions.drop_last(), now, timeout)
    } else {
        live_sessions(sessions.drop_last(), now, timeout).push(sessions.last())
    }
}

/// The index of the first entry for a peer and fragment id, or the number
/// of entries when there is none.
pub open spec fn position(sessions: Seq<SessionView>, peer: PeerAddr, frag_id: u8) -> int
    decreases sessions.len(),
{
    if sessions.len() == 0 {
        0
    } else if sessions[0].peer == peer && sessions[0].frag_id == frag_id {
        0
    } else {
        1 + position(sessions.drop_first(), peer, frag_id)
    }
}

/// The entry that the first fragment of a message opens.
pub open spec fn fresh_session(peer: PeerAddr, frag: FragmentView, now: u64) -> SessionView {
    SessionView {
        peer,
        frag_id: frag.frag_id,
        total: frag.frag_total,
        chunks: Seq::new(frag.frag_total as nat, |i: int| None::<Seq<u8>>),
        created_at: now,
    }
}

/// Why a fragment is refused.
pub enum Reject {
    /// The fragment says that its message has no fragments.
    InvalidTotal,
    /// A new entry is needed and the table is full.
    TooManySessions,
    /// The entry was opened for another number of fragments.
    InconsistentTotal,
    /// The index is not below the number of fragments.
    IndexOutOfRange,
    /// The fragment of this index has already come.
    Duplicate,
}

/// What a fragment brings about.
pub enum Outcome {
    /// The fragment is kept; others are still missing.
    Pending,
    /// The fragment was the last one missing; these are the joined bytes.
    Complete(Seq<u8>),
    /// The fragment is refused.
    Rejected(Reject),
}

/// The table after a fragment, and what the fragment brought about.
pub struct Step {
    pub sessions: Seq<SessionView>,
    pub outcome: Outcome,
}

/// The rule of reassembly: what one fragment from `peer`, arriving at
/// `now`, does to the table.
///
/// Expired entries leave first. A fragment of a message without fragments is
/// refused. Where the peer has no entry for the fragment id, one is opened
/// unless the table is full. Then the fragment must agree with the entry on
/// the total, have an index below it, and be the first of that index. It is
/// stored; and when it was the last one missing, the entry leaves the table
/// and the fragments' bytes are handed out, joined by index.
pub open spec fn add_fragment_spec(
    sessions: Seq<SessionView>,
    max_sessions: usize,
    timeout: u64,
    peer: PeerAddr,
    frag: FragmentView,
    now: u64,
) -> Step {
    let live = live_sessions(sessions, now, timeout);
    let at = position(live, peer, frag.frag_id);
    if frag.frag_total == 0 {
        Step { sessions: live, outcome: Outcome::Rejected(Reject::InvalidTotal) }
    } else if at == live.len() && live.len() >= max_sessions {
        Step { sessions: live, outcome: Outcome::Rejected(Reject::TooManySessions) }
    } else {
        let opened = if at == live.len() {
            live.push(fresh_session(peer, frag, now))
        } else {
            live
        };
        let entry = opened[at];
        if entry.total != frag.frag_total {
            Step { sessions: opened, outcome: Outcome::Rejected(Reject::InconsistentTotal) }
        } else if frag.frag_index >= entry.total {
            Step { sessions: opened, outcome: Outcome::Rejected(Reject::IndexOutOfRange) }
        } else if entry.chunks[frag.frag_index as int] is Some {
            Step { sessions: opened, outcome: Outcome::Rejected(Reject::Duplicate) }
        } else {
            let chunks = entry.chunks.update(frag.frag_index as int, Some(frag.data));
            if all_present(chunks) {
                Step { sessions: opened.remove(at), outcome: Outcome::Complete(concat_chunks(chunks)) }
            } else {
                Step {
                    sessions: opened.update(at, SessionView { chunks, ..entry }),
                    outcome: Outcome::Pending,
                }
            }
        }
    }
}

/// Whether an entry is as every entry of a table is: it has a slot for each
/// fragment, at least one fragment, and not yet all of them.
pub open spec fn session_wf(s: SessionView) -> bool {
    &&& s.total >= 1
    &&& s.chunks.len() == s.total
    &&& !all_present(s.chunks)
}

/// Whether every entry is well-formed.
pub open spec fn sessions_wf(sessions: Seq<SessionView>) -> bool {
    forall|i: int| 0 <= i < sessions.len() ==> session_wf(#[trigger] sessions[i])
}

/// Appends the bytes of `src` to `dst`.
pub fn append_bytes(dst: &mut Vec<u8>, src: &[u8])
    ensures
        final(dst)@ == old(dst)@ + src@,
{
    let mut i: usize = 0;
    while i < src.len()
        invariant
            i <= src@.len(),
            dst@ == old(dst)@ + src@.take(i as int),
        decreases src@.len() - i,
    {
        dst.push(src[i]);
        assert(dst@ =~= old(dst)@ + src@.take(i + 1));
        i += 1;
    }
    assert(src@.take(i as int) =~= src@);
}

/// The slots of an entry, each by what it holds.
pub open spec fn chunks_view(chunks: Seq<Option<Vec<u8>>>) -> Seq<Option<Seq<u8>>> {
    Seq::new(
        chunks.len(),
        |i: int|
            match chunks[i] {
                Some(data) => Some(data@),
                None => None,
            },
    )
}

/// An entry of the reassembly table.
#[derive(Debug)]
pub struct ReassemblySession {
    frag_id: u8,
    total_fragments: u8,
    received_fragments: Vec<Option<Vec<u8>>>,
    created_at: u64,
    from_addr: PeerAddr,
}

impl View for ReassemblySession {
    type V = SessionView;

    closed spec fn view(&self) -> SessionView {
        SessionView {
            peer: self.from_addr,
            frag_id: self.frag_id,
            total: self.total_fragments,
            chunks: chunks_view(self.received_fragments@),
            created_at: self.created_at,
        }
    }
}

impl ReassemblySession {
    /// An entry for a message of `total_fragments` fragments, none of which
    /// has come.
    pub fn new(frag_id: u8, total_fragments: u8, from_addr: PeerAddr, now: u64) -> (r:
        ReassemblySession)
        ensures
            r@ == (SessionView {
                peer: from_addr,
                frag_id,
                total: total_fragments,
                chunks: Seq::new(total_fragments as nat, |i: int| None::<Seq<u8>>),
                created_at: now,
            }),
    {
        let mut received: Vec<Option<Vec<u8>>> = Vec::new();
        let mut i: u8 = 0;
        while i < total_fragments
            invariant
                i <= total_fragments,
                received@.len() == i,
                forall|j: int| 0 <= j < i ==> (#[trigger] received@[j]) is None,
            decreases total_fragments - i,
        {
            received.push(None);
            i += 1;
        }
        let r = ReassemblySession {
            frag_id,
            total_fragments,
            received_fragments: received,
            created_at: now,
            from_addr,
        };
        assert(r@.chunks =~= Seq::new(total_fragments as nat, |i: int| None::<Seq<u8>>));
        r
    }

    /// Stores the fragment of the given index, unless the index is out of
    /// range or that fragment has already come.
    pub fn add_fragment(&mut self, frag_index: u8, data: Vec<u8>) -> (r: Result<(), VstpError>)
        requires
            old(self)@.chunks.len() == old(self)@.total,
        ensures
            frag_index >= old(self)@.total ==> r is Err && r->Err_0.is_protocol(
                "Invalid fragment index"@,
            ) && final(self)@ == old(self)@,
            frag_index < old(self)@.total && old(self)@.chunks[frag_index as int] is Some ==> r is Err
                && r->Err_0.is_protocol("Duplicate fragment"@) && final(self)@ == old(self)@,
            frag_index < old(self)@.total && old(self)@.chunks[frag_index as int] is None ==> r is Ok
                && final(self)@ == (SessionView {
                chunks: old(self)@.chunks.update(frag_index as int, Some(data@)),
                ..old(self)@
            }),
    {
        if frag_index >= self.total_fragments {
            return Err(VstpError::Protocol(String::from_str("Invalid fragment index")));
        }
        if self.received_fragments[frag_index as usize].is_some() {
            return Err(VstpError::Protocol(String::from_str("Duplicate fragment")));
        }
        self.received_fragments.set(frag_index as usize, Some(data));
        assert(self@.chunks =~= old(self)@.chunks.update(frag_index as int, Some(data@)));
        Ok(())
    }

    /// Whether every fragment has come.
    pub fn is_complete(&self) -> (r: bool)
        ensures
            r == all_present(self@.chunks),
    {
        let mut i: usize = 0;
        while i < self.received_fragments.len()
            invariant
                i <= self.received_fragments@.len(),
                forall|j: int| 0 <= j < i ==> (#[trigger] self@.chunks[j]) is Some,
            decreases self.received_fragments@.len() - i,
        {
            if self.received_fragments[i].is_none() {
                assert(self@.chunks[i as int] is None);
                return false;
            }
            assert(self@.chunks[i as int] is Some);
            i += 1;
        }
        true
    }

    /// The fragments joined in the order of their indices; an error while
    /// one is missing.
    pub fn assemble(&self) -> (r: Result<Vec<u8>, VstpError>)
        ensures
            all_present(self@.chunks) ==> r is Ok && r->Ok_0@ == concat_chunks(self@.chunks),
            !all_present(self@.chunks) ==> r is Err && r->Err_0.is_protocol(
                "Frame not complete"@,
            ),
    {
        if !self.is_complete() {
            return Err(VstpError::Protocol(String::from_str("Frame not complete")));
        }
        let mut result: Vec<u8> = Vec::new();
        let mut i: usize = 0;
        assert(self@.chunks.take(0) =~= Seq::<Option<Seq<u8>>>::empty());
        while i < self.received_fragments.len()
            invariant
                i <= self.received_fragments@.len(),
                result@ == concat_chunks(self@.chunks.take(i as int)),
            decreases self.received_fragments@.len() - i,
        {
            proof {
                let t = self@.chunks.take(i + 1);
                assert(t.drop_last() =~= self@.chunks.take(i as int));
                assert(t.last() == self@.chunks[i as int]);
            }
            match &self.received_fragments[i] {
                Some(data) => {
                    append_bytes(&mut result, data.as_slice());
                },
                None => {
                    assert(result@ + Seq::<u8>::empty() =~= result@);
                },
            }
            i += 1;
        }
        assert(self@.chunks.take(i as int) =~= self@.chunks);
        Ok(result)
    }

    /// Whether the entry is older than `timeout` milliseconds at `now`.
    pub fn is_expired(&self, now: u64, timeout: u64) -> (r: bool)
        ensures
            r == expired(self@, now, timeout),
    {
        now > self.created_at && now - self.created_at > timeout
    }
}

/// The entries of a table, each by what it is.
pub open spec fn sessions_view(sessions: Seq<ReassemblySession>) -> Seq<SessionView> {
    Seq::new(sessions.len(), |i: int| sessions[i]@)
}

/// What a reassembly table is: its entries and its two limits.
pub struct ReassemblyView {
    pub sessions: Seq<SessionView>,
    pub max_sessions: usize,
    pub timeout: u64,
}

/// Whether `r` is what the table owes for an outcome.
pub open spec fn reports_outcome(
    r: Result<Option<Vec<u8>>, VstpError>,
    outcome: Outcome,
    max_sessions: usize,
) -> bool {
    match outcome {
        Outcome::Pending => r is Ok && r->Ok_0 is None,
        Outcome::Complete(bytes) => r is Ok && r->Ok_0 is Some && r->Ok_0->0@ == bytes,
        Outcome::Rejected(Reject::InvalidTotal) => r is Err && r->Err_0.is_protocol(
            "Invalid fragment total"@,
        ),
        Outcome::Rejected(Reject::TooManySessions) => r is Err && r->Err_0
            == (VstpError::TooManySessions { limit: max_sessions }),
        Outcome::Rejected(Reject::InconsistentTotal) => r is Err && r->Err_0.is_protocol(
            "Inconsistent fragmentation"@,
        ),
        Outcome::Rejected(Reject::IndexOutOfRange) => r is Err && r->Err_0.is_protocol(
            "Invalid fragment index"@,
        ),
        Outcome::Rejected(Reject::Duplicate) => r is Err && r->Err_0.is_protocol(
            "Duplicate fragment"@,
        ),
    }
}

/// The live entries of a table and one more entry are the live entries of
/// the table, and the one more if it is live.
pub proof fn lemma_live_take(sessions: Seq<SessionView>, k: int, now: u64, timeout: u64)
    requires
        0 <= k < sessions.len(),
    ensures
        live_sessions(sessions.take(k + 1), now, timeout) == (if expired(
            sessions[k],
            now,
            timeout,
        ) {
            live_sessions(sessions.take(k), now, timeout)
        } else {
            live_sessions(sessions.take(k), now, timeout).push(sessions[k])
        }),
{
    let t = sessions.take(k + 1);
    assert(t.drop_last() =~= sessions.take(k));
    assert(t.last() == sessions[k]);
}

/// The position of a key, seen from an index before which no entry has it.
pub proof fn lemma_position_from(sessions: Seq<SessionView>, peer: PeerAddr, frag_id: u8, i: int)
    requires
        0 <= i <= sessions.len(),
        forall|j: int|
            0 <= j < i ==> !((#[trigger] sessions[j]).peer == peer && sessions[j].frag_id
                == frag_id),
    ensures
        position(sessions, peer, frag_id) == i + position(sessions.skip(i), peer, frag_id),
    decreases i,
{
    if i == 0 {
        assert(sessions.skip(0) =~= sessions);
    } else {
        let rest = sessions.drop_first();
        assert forall|j: int| 0 <= j < i - 1 implies !((#[trigger] rest[j]).peer == peer
            && rest[j].frag_id == frag_id) by {
            assert(rest[j] == sessions[j + 1]);
        }
        lemma_position_from(rest, peer, frag_id, i - 1);
        assert(rest.skip(i - 1) =~= sessions.skip(i));
    }
}

/// The live entries of well-formed entries are well-formed.
pub proof fn lemma_live_wf(sessions: Seq<SessionView>, now: u64, timeout: u64)
    requires
        sessions_wf(sessions),
    ensures
        sessions_wf(live_sessions(sessions, now, timeout)),
        live_sessions(sessions, now, timeout).len() <= sessions.len(),
    decreases sessions.len(),
{
    if sessions.len() > 0 {
        let front = sessions.drop_last();
        assert forall|i: int| 0 <= i < front.len() implies session_wf(#[trigger] front[i]) by {
            assert(front[i] == sessions[i]);
        }
        lemma_live_wf(front, now, timeout);
        assert(session_wf(sessions[sessions.len() - 1]));
    }
}

/// Whether an entry collects the message of a peer and fragment id.
pub open spec fn has_key(s: SessionView, peer: PeerAddr, frag_id: u8) -> bool {
    s.peer == peer && s.frag_id == frag_id
}

/// The position of a key is where the first entry with the key is.
pub proof fn lemma_position_props(sessions: Seq<SessionView>, peer: PeerAddr, frag_id: u8)
    ensures
        0 <= position(sessions, peer, frag_id) <= sessions.len(),
        position(sessions, peer, frag_id) < sessions.len() ==> has_key(
            sessions[position(sessions, peer, frag_id)],
            peer,
            frag_id,
        ),
        forall|j: int|
            0 <= j < position(sessions, peer, frag_id) ==> !has_key(
                #[trigger] sessions[j],
                peer,
                frag_id,
            ),
    decreases sessions.len(),
{
    if sessions.len() > 0 && !has_key(sessions[0], peer, frag_id) {
        let rest = sessions.drop_first();
        lemma_position_props(rest, peer, frag_id);
        assert forall|j: int| 0 <= j < position(sessions, peer, frag_id) implies !has_key(
            #[trigger] sessions[j],
            peer,
            frag_id,
        ) by {
            if j > 0 {
                assert(sessions[j] == rest[j - 1]);
            }
        }
    }
}

/// Where the first entry with a key is, there is the position of the key.
pub proof fn lemma_position_is(sessions: Seq<SessionView>, peer: PeerAddr, frag_id: u8, p: int)
    requires
        0 <= p <= sessions.len(),
        forall|j: int| 0 <= j < p ==> !has_key(#[trigger] sessions[j], peer, frag_id),
        p < sessions.len() ==> has_key(sessions[p], peer, frag_id),
    ensures
        position(sessions, peer, frag_id) == p,
{
    lemma_position_from(sessions, peer, frag_id, p);
    if p < sessions.len() {
        assert(sessions.skip(p)[0] == sessions[p]);
    } else {
        assert(sessions.skip(p).len() == 0);
    }
}

/// Every live entry is an entry of the table and is not expired.
pub proof fn lemma_live_members(sessions: Seq<SessionView>, now: u64, timeout: u64)
    ensures
        forall|i: int|
            0 <= i < live_sessions(sessions, now, timeout).len() ==> !expired(
                #[trigger] live_sessions(sessions, now, timeout)[i],
                now,
                timeout,
            ) && exists|j: int|
                0 <= j < sessions.len() && sessions[j] == live_sessions(sessions, now, timeout)[i],
    decreases sessions.len(),
{
    if sessions.len() > 0 {
        let front = sessions.drop_last();
        let last = sessions.last();
        lemma_live_members(front, now, timeout);
        let live = live_sessions(sessions, now, timeout);
        let live_front = live_sessions(front, now, timeout);
        assert forall|i: int| 0 <= i < live.len() implies !expired(#[trigger] live[i], now, timeout)
            && exists|j: int| 0 <= j < sessions.len() && sessions[j] == live[i] by {
            if i < live_front.len() {
                assert(live[i] == live_front[i]);
                let j = choose|j: int| 0 <= j < front.len() && front[j] == live_front[i];
                assert(sessions[j] == live[i]);
            } else {
                assert(live[i] == last);
                assert(sessions[sessions.len() - 1] == live[i]);
            }
        }
    }
}

/// Whether no two entries collect the message of the same peer and
/// fragment id.
pub open spec fn keys_unique(sessions: Seq<SessionView>) -> bool {
    forall|i: int, j: int|
        0 <= i < j < sessions.len() ==> !has_key(
            #[trigger] sessions[i],
            (#[trigger] sessions[j]).peer,
            sessions[j].frag_id,
        )
}

/// Whether a table is as every table is: each entry is well-formed, no
/// two entries collect the same message, and there are no more entries than
/// the limit allows.
pub open spec fn table_wf(table: ReassemblyView) -> bool {
    &&& sessions_wf(table.sessions)
    &&& keys_unique(table.sessions)
    &&& table.sessions.len() <= table.max_sessions
}

/// The live entries of a table without two entries for one message have
/// no two entries for one message.
pub proof fn lemma_live_unique(sessions: Seq<SessionView>, now: u64, timeout: u64)
    requires
        keys_unique(sessions),
    ensures
        keys_unique(live_sessions(sessions, now, timeout)),
    decreases sessions.len(),
{
    if sessions.len() > 0 {
        let front = sessions.drop_last();
        let last = sessions.last();
        assert forall|i: int, j: int| 0 <= i < j < front.len() implies !has_key(
            #[trigger] front[i],
            (#[trigger] front[j]).peer,
            front[j].frag_id,
        ) by {
            assert(front[i] == sessions[i] && front[j] == sessions[j]);
        }
        lemma_live_unique(front, now, timeout);
        lemma_live_members(front, now, timeout);
        let live = live_sessions(sessions, now, timeout);
        let live_front = live_sessions(front, now, timeout);
        assert forall|i: int, j: int| 0 <= i < j < live.len() implies !has_key(
            #[trigger] live[i],
            (#[trigger] live[j]).peer,
            live[j].frag_id,
        ) by {
            if j < live_front.len() {
                assert(live[i] == live_front[i] && live[j] == live_front[j]);
            } else {
                assert(live[j] == last);
                assert(live[i] == live_front[i]);
                let k = choose|k: int| 0 <= k < front.len() && front[k] == live_front[i];
                assert(sessions[k] == live[i]);
                assert(sessions[sessions.len() - 1] == last);
            }
        }
    }
}

/// Reassembly keeps a table as every table is.
pub proof fn lemma_step_wf(
    table: ReassemblyView,
    peer: PeerAddr,
    frag: FragmentView,
    now: u64,
)
    requires
        table_wf(table),
    ensures
        table_wf(
            ReassemblyView {
                sessions: add_fragment_spec(
                    table.sessions,
                    table.max_sessions,
                    table.timeout,
                    peer,
                    frag,
                    now,
                ).sessions,
                ..table
            },
        ),
{
    let live = live_sessions(table.sessions, now, table.timeout);
    lemma_live_wf(table.sessions, now, table.timeout);
    lemma_live_unique(table.sessions, now, table.timeout);
    lemma_position_props(live, peer, frag.frag_id);
    let at = position(live, peer, frag.frag_id);
    let after = add_fragment_spec(
        table.sessions,
        table.max_sessions,
        table.timeout,
        peer,
        frag,
        now,
    ).sessions;
    if frag.frag_total == 0 || (at == live.len() && live.len() >= table.max_sessions) {
        assert(after == live);
    } else {
        let fresh = fresh_session(peer, frag, now);
        let opened = if at == live.len() {
            live.push(fresh)
        } else {
            live
        };
        assert(fresh.chunks[0] is None);
        assert(session_wf(fresh));
        assert forall|i: int| 0 <= i < opened.len() implies session_wf(#[trigger] opened[i]) by {
            if i < live.len() {
                assert(opened[i] == live[i]);
            }
        }
        assert forall|i: int, j: int| 0 <= i < j < opened.len() implies !has_key(
            #[trigger] opened[i],
            (#[trigger] opened[j]).peer,
            opened[j].frag_id,
        ) by {
            if j < live.len() {
                assert(opened[i] == live[i] && opened[j] == live[j]);
            } else {
                assert(opened[i] == live[i]);
                assert(!has_key(live[i], peer, frag.frag_id));
            }
        }
        let entry = opened[at];
        if after == opened {
        } else if after == opened.remove(at) {
            assert forall|i: int| 0 <= i < after.len() implies session_wf(#[trigger] after[i]) by {
                if i < at {
                    assert(after[i] == opened[i]);
                } else {
                    assert(after[i] == opened[i + 1]);
                }
            }
            assert forall|i: int, j: int| 0 <= i < j < after.len() implies !has_key(
                #[trigger] after[i],
                (#[trigger] after[j]).peer,
                after[j].frag_id,
            ) by {
                let oi = if i < at {
                    i
                } else {
                    i + 1
                };
                let oj = if j < at {
                    j
                } else {
                    j + 1
                };
                assert(after[i] == opened[oi] && after[j] == opened[oj]);
            }
        } else {
            let chunks = entry.chunks.update(frag.frag_index as int, Some(frag.data));
            assert(after == opened.update(at, SessionView { chunks, ..entry }));
            assert forall|i: int| 0 <= i < after.len() implies session_wf(#[trigger] after[i]) by {
                if i != at {
                    assert(after[i] == opened[i]);
                } else {
                    assert(session_wf(opened[at]));
                }
            }
            assert forall|i: int, j: int| 0 <= i < j < after.len() implies !has_key(
                #[trigger] after[i],
                (#[trigger] after[j]).peer,
                after[j].frag_id,
            ) by {
                assert(after[i].peer == opened[i].peer && after[i].frag_id == opened[i].frag_id);
                assert(after[j].peer == opened[j].peer && after[j].frag_id == opened[j].frag_id);
            }
        }
    }
}

/// Keeps the fragments of unfinished messages, per peer and fragment id.
#[derive(Debug)]
pub struct ReassemblyManager {
    sessions: Vec<ReassemblySession>,
    max_sessions: usize,
    timeout_ms: u64,
    started: Instant,
}

impl View for ReassemblyManager {
    type V = ReassemblyView;

    closed spec fn view(&self) -> ReassemblyView {
        ReassemblyView {
            sessions: sessions_view(self.sessions@),
            max_sessions: self.max_sessions,
            timeout: self.timeout_ms,
        }
    }
}

impl Default for ReassemblyManager {
    /// An empty table with the default limits.
    fn default() -> (r: ReassemblyManager)
        ensures
            r.wf(),
            r@ == (ReassemblyView {
                sessions: Seq::empty(),
                max_sessions: MAX_REASSEMBLY_SESSIONS,
                timeout: REASSEMBLY_TIMEOUT_MS,
            }),
    {
        ReassemblyManager::new()
    }
}

impl ReassemblyManager {
    /// Whether the table is as every table made by `new` or `with_limits`
    /// is.
    pub open spec fn wf(&self) -> bool {
        table_wf(self@)
    }

    /// An empty table with the default limits.
    pub fn new() -> (r: ReassemblyManager)
        ensures
            r.wf(),
            r@ == (ReassemblyView {
                sessions: Seq::empty(),
                max_sessions: MAX_REASSEMBLY_SESSIONS,
                timeout: REASSEMBLY_TIMEOUT_MS,
            }),
    {
        ReassemblyManager::with_limits(MAX_REASSEMBLY_SESSIONS, REASSEMBLY_TIMEOUT_MS)
    }

    /// An empty table with the given limits.
    pub fn with_limits(max_sessions: usize, timeout_ms: u64) -> (r: ReassemblyManager)
        ensures
            r.wf(),
            r@ == (ReassemblyView { sessions: Seq::empty(), max_sessions, timeout: timeout_ms }),
    {
        let r = ReassemblyManager {
            sessions: Vec::new(),
            max_sessions,
            timeout_ms,
            started: clock_now(),
        };
        assert(r@.sessions =~= Seq::<SessionView>::empty());
        r
    }

    /// The number of unfinished messages.
    pub fn session_count(&self) -> (n: usize)
        ensures
            n == self@.sessions.len(),
    {
        self.sessions.len()
    }

    /// Drops the entries that are older than the timeout at `now`.
    pub fn cleanup_expired(&mut self, now: u64)
        requires
            old(self).wf(),
        ensures
            final(self).wf(),
            final(self)@ == (ReassemblyView {
                sessions: live_sessions(old(self)@.sessions, now, old(self)@.timeout),
                ..old(self)@
            }),
    {
        let ghost before = self@.sessions;
        let ghost mut k: int = 0;
        let mut i: usize = 0;
        assert(before.take(0) =~= Seq::<SessionView>::empty());
        assert(before.skip(0) =~= before);
        assert(self@.sessions =~= live_sessions(before.take(0), now, self.timeout_ms) + before);
        while i < self.sessions.len()
            invariant
                0 <= k <= before.len(),
                self.max_sessions == old(self).max_sessions,
                self.timeout_ms == old(self).timeout_ms,
                i == live_sessions(before.take(k), now, self.timeout_ms).len(),
                self@.sessions == live_sessions(before.take(k), now, self.timeout_ms)
                    + before.skip(k),
            decreases before.len() - k,
        {
            let ghost kept = live_sessions(before.take(k), now, self.timeout_ms);
            proof {
                lemma_live_take(before, k, now, self.timeout_ms);
                assert(self@.sessions[i as int] == before.skip(k)[0]);
                assert(self.sessions@[i as int]@ == self@.sessions[i as int]);
            }
            let ghost entries = self.sessions@;
            let ghost views = self@.sessions;
            if self.sessions[i].is_expired(now, self.timeout_ms) {
                let gone = self.sessions.remove(i);
                proof {
                    let target = kept + before.skip(k + 1);
                    assert(self.sessions@ == entries.remove(i as int));
                    assert(views.len() == entries.len());
                    assert(views.len() == kept.len() + before.skip(k).len());
                    assert(self.sessions@.len() == entries.len() - 1);
                    assert(self@.sessions.len() == self.sessions@.len());
                    assert(self@.sessions.len() == target.len());
                    assert forall|j: int| 0 <= j < target.len() implies self@.sessions[j]
                        == target[j] by {
                        if j < i {
                            assert(self.sessions@[j] == entries[j]);
                            assert(views[j] == entries[j]@);
                        } else {
                            assert(self.sessions@[j] == entries[j + 1]);
                            assert(views[j + 1] == entries[j + 1]@);
                            assert(views[j + 1] == before.skip(k)[j + 1 - i]);
                        }
                    }
                    assert(self@.sessions =~= target);
                }
            } else {
                assert(self@.sessions =~= kept.push(before[k]) + before.skip(k + 1));
                i += 1;
            }
            proof {
                k = k + 1;
            }
        }
        proof {
            assert(before.skip(k).len() == 0);
            assert(before.take(k) =~= before);
            assert(self@.sessions =~= live_sessions(before, now, self.timeout_ms));
            lemma_live_wf(before, now, self.timeout_ms);
            lemma_live_unique(before, now, self.timeout_ms);
        }
    }

    /// The index of the entry for a peer and fragment id, or the number of
    /// entries when there is none.
    pub fn find(&self, peer: PeerAddr, frag_id: u8) -> (at: usize)
        ensures
            at == position(self@.sessions, peer, frag_id),
            at <= self@.sessions.len(),
    {
        let mut i: usize = 0;
        while i < self.sessions.len()
            invariant
                i <= self.sessions@.len(),
                forall|j: int|
                    0 <= j < i ==> !((#[trigger] self@.sessions[j]).peer == peer
                        && self@.sessions[j].frag_id == frag_id),
            decreases self.sessions@.len() - i,
        {
            assert(self.sessions@[i as int]@ == self@.sessions[i as int]);
            if self.sessions[i].from_addr == peer && self.sessions[i].frag_id == frag_id {
                proof {
                    lemma_position_from(self@.sessions, peer, frag_id, i as int);
                    assert(self@.sessions.skip(i as int)[0] == self@.sessions[i as int]);
                }
                return i;
            }
            i += 1;
        }
        proof {
            lemma_position_from(self@.sessions, peer, frag_id, i as int);
        }
        i
    }

    /// The milliseconds that have passed since the table was made.
    pub fn now_ms(&self) -> (now: u64) {
        clock_elapsed_ms(&self.started)
    }

    /// Takes in one fragment that came from `from_addr` just now.
    ///
    /// The table changes, and the result is, as the rule of reassembly says
    /// for some present time: what that time is, the clock alone decides.
    pub fn add_fragment(&mut self, from_addr: PeerAddr, fragment: Fragment) -> (r: Result<
        Option<Vec<u8>>,
        VstpError,
    >)
        requires
            old(self).wf(),
        ensures
            final(self).wf(),
            exists|now: u64|
                {
                    &&& final(self)@ == (ReassemblyView {
                        sessions: (#[trigger] add_fragment_spec(
                            old(self)@.sessions,
                            old(self)@.max_sessions,
                            old(self)@.timeout,
                            from_addr,
                            fragment@,
                            now,
                        )).sessions,
                        ..old(self)@
                    })
                    &&& reports_outcome(
                        r,
                        add_fragment_spec(
                            old(self)@.sessions,
                            old(self)@.max_sessions,
                            old(self)@.timeout,
                            from_addr,
                            fragment@,
                            now,
                        ).outcome,
                        old(self)@.max_sessions,
                    )
                },
    {
        let now = self.now_ms();
        self.add_fragment_at(from_addr, fragment, now)
    }

    /// Takes in one fragment that came from `from_addr` at `now`, a time in
    /// milliseconds on a clock that does not go back.
    ///
    /// The table changes, and the result is, as the rule of reassembly says:
    /// `Ok(None)` while fragments are missing, `Ok(Some(bytes))` with the
    /// joined bytes when this was the last one, and an error when the
    /// fragment is refused.
    pub fn add_fragment_at(&mut self, from_addr: PeerAddr, fragment: Fragment, now: u64) -> (r:
        Result<Option<Vec<u8>>, VstpError>)
        requires
            old(self).wf(),
        ensures
            final(self).wf(),
            final(self)@ == (ReassemblyView {
                sessions: add_fragment_spec(
                    old(self)@.sessions,
                    old(self)@.max_sessions,
                    old(self)@.timeout,
                    from_addr,
                    fragment@,
                    now,
                ).sessions,
                ..old(self)@
            }),
            reports_outcome(
                r,
                add_fragment_spec(
                    old(self)@.sessions,
                    old(self)@.max_sessions,
                    old(self)@.timeout,
                    from_addr,
                    fragment@,
                    now,
                ).outcome,
                old(self)@.max_sessions,
            ),
    {
        let ghost frag = fragment@;
        proof {
            lemma_step_wf(self@, from_addr, frag, now);
        }
        self.cleanup_expired(now);
        let ghost live = self@.sessions;
        if fragment.frag_total == 0 {
            return Err(VstpError::Protocol(String::from_str("Invalid fragment total")));
        }
        let at = self.find(from_addr, fragment.frag_id);
        if at == self.sessions.len() {
            if self.sessions.len() >= self.max_sessions {
                return Err(VstpError::TooManySessions { limit: self.max_sessions });
            }
            let entry = ReassemblySession::new(
                fragment.frag_id,
                fragment.frag_total,
                from_addr,
                now,
            );
            assert(entry@ == fresh_session(from_addr, frag, now));
            assert(entry@.chunks[0] is None);
            self.sessions.push(entry);
            assert(self@.sessions =~= live.push(fresh_session(from_addr, frag, now)));
        }
        let ghost opened = self@.sessions;
        let ghost entries = self.sessions@;
        assert(entries[at as int]@ == opened[at as int]);
        assert(session_wf(opened[at as int]));
        let mut session = self.sessions.remove(at);
        assert(self@.sessions =~= opened.remove(at as int));
        let ghost without = self.sessions@;
        if session.total_fragments != fragment.frag_total {
            self.sessions.insert(at, session);
            assert(self@.sessions =~= opened);
            return Err(VstpError::Protocol(String::from_str("Inconsistent fragmentation")));
        }
        let frag_index = fragment.frag_index;
        match session.add_fragment(frag_index, fragment.data) {
            Err(e) => {
                self.sessions.insert(at, session);
                assert(self@.sessions =~= opened);
                return Err(e);
            },
            Ok(_) => {},
        }
        if session.is_complete() {
            match session.assemble() {
                Ok(bytes) => {
                    return Ok(Some(bytes));
                },
                Err(e) => {
                    return Err(e);
                },
            }
        }
        let ghost stored = session@;
        self.sessions.insert(at, session);
        assert(self@.sessions =~= opened.update(at as int, stored));
        Ok(None)
    }
}

} // verus!
