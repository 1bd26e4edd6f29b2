//! What holds of reassembly: fragments may come in any order, a fragment
//! that comes twice is refused and harms nothing, and a full table refuses
//! new messages without dropping those it holds.

use vstd::prelude::*;
use crate::peer::PeerAddr;
use crate::reassembly::{
    add_fragment_spec, all_present, concat_chunks, expired, fresh_session, has_key,
    lemma_live_members, lemma_live_wf, lemma_position_is, lemma_position_props, live_sessions,
    position, session_wf, sessions_wf, FragmentView, Outcome, Reject, SessionView, Step,
};

verus! {

/// A table without an entry for a key has none among its live entries.
pub proof fn lemma_live_without_key(
    sessions: Seq<SessionView>,
    peer: PeerAddr,
    frag_id: u8,
    now: u64,
    timeout: u64,
)
    requires
        forall|j: int| 0 <= j < sessions.len() ==> !has_key(#[trigger] sessions[j], peer, frag_id),
    ensures
        position(live_sessions(sessions, now, timeout), peer, frag_id) == live_sessions(
            sessions,
            now,
            timeout,
        ).len(),
{
    let live = live_sessions(sessions, now, timeout);
    lemma_live_members(sessions, now, timeout);
    assert forall|i: int| 0 <= i < live.len() implies !has_key(#[trigger] live[i], peer, frag_id) by {
        let j = choose|j: int| 0 <= j < sessions.len() && sessions[j] == live[i];
        assert(!has_key(sessions[j], peer, frag_id));
    }
    lemma_position_is(live, peer, frag_id, live.len() as int);
}

/// An entry that is not expired is found among the live entries as it was
/// found in the table.
pub proof fn lemma_position_live(
    sessions: Seq<SessionView>,
    peer: PeerAddr,
    frag_id: u8,
    now: u64,
    timeout: u64,
)
    requires
        position(sessions, peer, frag_id) < sessions.len(),
        !expired(sessions[position(sessions, peer, frag_id)], now, timeout),
    ensures
        position(live_sessions(sessions, now, timeout), peer, frag_id) < live_sessions(
            sessions,
            now,
            timeout,
        ).len(),
        live_sessions(sessions, now, timeout)[position(
            live_sessions(sessions, now, timeout),
            peer,
            frag_id,
        )] == sessions[position(sessions, peer, frag_id)],
    decreases sessions.len(),
{
    let p = position(sessions, peer, frag_id);
    let front = sessions.drop_last();
    let last = sessions.last();
    let live = live_sessions(sessions, now, timeout);
    let live_front = live_sessions(front, now, timeout);
    lemma_position_props(sessions, peer, frag_id);
    if p < front.len() {
        assert forall|j: int| 0 <= j < p implies !has_key(#[trigger] front[j], peer, frag_id) by {
            assert(front[j] == sessions[j]);
        }
        assert(front[p] == sessions[p]);
        lemma_position_is(front, peer, frag_id, p);
        lemma_position_live(front, peer, frag_id, now, timeout);
        let q = position(live_front, peer, frag_id);
        lemma_position_props(live_front, peer, frag_id);
        assert forall|j: int| 0 <= j < q implies !has_key(#[trigger] live[j], peer, frag_id) by {
            assert(live[j] == live_front[j]);
        }
        assert(live[q] == live_front[q]);
        lemma_position_is(live, peer, frag_id, q);
    } else {
        assert forall|j: int| 0 <= j < front.len() implies !has_key(
            #[trigger] front[j],
            peer,
            frag_id,
        ) by {
            assert(front[j] == sessions[j]);
        }
        lemma_live_without_key(front, peer, frag_id, now, timeout);
        lemma_position_props(live_front, peer, frag_id);
        assert forall|j: int| 0 <= j < live_front.len() implies !has_key(
            #[trigger] live[j],
            peer,
            frag_id,
        ) by {
            assert(live[j] == live_front[j]);
        }
        assert(live[live_front.len() as int] == last);
        lemma_position_is(live, peer, frag_id, live_front.len() as int);
    }
}

/// Duplicate rejection: a fragment whose index has already come for its
/// message is refused, and the table is left as the live entries were: no
/// entry changes, and none but expired ones leaves.
pub proof fn lemma_duplicate_rejected(
    sessions: Seq<SessionView>,
    max_sessions: usize,
    timeout: u64,
    peer: PeerAddr,
    frag: FragmentView,
    now: u64,
)
    requires
        frag.frag_total >= 1,
        ({
            let live = live_sessions(sessions, now, timeout);
            let at = position(live, peer, frag.frag_id);
            &&& at < live.len()
            &&& live[at].total == frag.frag_total
            &&& frag.frag_index < frag.frag_total
            &&& live[at].chunks[frag.frag_index as int] is Some
        }),
    ensures
        add_fragment_spec(sessions, max_sessions, timeout, peer, frag, now) == (Step {
            sessions: live_sessions(sessions, now, timeout),
            outcome: Outcome::Rejected(Reject::Duplicate),
        }),
{
}

/// The same fragment twice: when a fragment was kept, and comes again
/// while none of the entries has expired, it is refused and the table is
/// exactly as the first time left it.
pub proof fn lemma_second_copy_rejected(
    sessions: Seq<SessionView>,
    max_sessions: usize,
    timeout: u64,
    peer: PeerAddr,
    frag: FragmentView,
    copy: FragmentView,
    now: u64,
    later: u64,
)
    requires
        sessions_wf(sessions),
        add_fragment_spec(sessions, max_sessions, timeout, peer, frag, now).outcome
            == Outcome::Pending,
        copy.frag_id == frag.frag_id,
        copy.frag_index == frag.frag_index,
        copy.frag_total == frag.frag_total,
        live_sessions(
            add_fragment_spec(sessions, max_sessions, timeout, peer, frag, now).sessions,
            later,
            timeout,
        ) == add_fragment_spec(sessions, max_sessions, timeout, peer, frag, now).sessions,
    ensures
        add_fragment_spec(
            add_fragment_spec(sessions, max_sessions, timeout, peer, frag, now).sessions,
            max_sessions,
            timeout,
            peer,
            copy,
            later,
        ) == (Step {
            sessions: add_fragment_spec(sessions, max_sessions, timeout, peer, frag, now).sessions,
            outcome: Outcome::Rejected(Reject::Duplicate),
        }),
{
    let live = live_sessions(sessions, now, timeout);
    let at = position(live, peer, frag.frag_id);
    lemma_position_props(live, peer, frag.frag_id);
    lemma_live_wf(sessions, now, timeout);
    let opened = if at == live.len() {
        live.push(fresh_session(peer, frag, now))
    } else {
        live
    };
    let entry = opened[at];
    if at < live.len() {
        assert(session_wf(live[at]));
    }
    assert(entry.chunks.len() == entry.total);
    let chunks = entry.chunks.update(frag.frag_index as int, Some(frag.data));
    let after = opened.update(at, SessionView { chunks, ..entry });
    assert(add_fragment_spec(sessions, max_sessions, timeout, peer, frag, now).sessions == after);
    assert forall|j: int| 0 <= j < at implies !has_key(#[trigger] after[j], peer, frag.frag_id) by {
        assert(after[j] == live[j]);
    }
    assert(has_key(after[at], peer, frag.frag_id));
    lemma_position_is(after, peer, frag.frag_id, at);
}

/// Bounded reassembly: when the table holds as many live entries as the
/// limit allows, the first fragment of another message is refused, and
/// every live entry stays as it is.
pub proof fn lemma_full_table_rejects(
    sessions: Seq<SessionView>,
    max_sessions: usize,
    timeout: u64,
    peer: PeerAddr,
    frag: FragmentView,
    now: u64,
)
    requires
        frag.frag_total >= 1,
        live_sessions(sessions, now, timeout).len() >= max_sessions,
        position(live_sessions(sessions, now, timeout), peer, frag.frag_id) == live_sessions(
            sessions,
            now,
            timeout,
        ).len(),
    ensures
        add_fragment_spec(sessions, max_sessions, timeout, peer, frag, now) == (Step {
            sessions: live_sessions(sessions, now, timeout),
            outcome: Outcome::Rejected(Reject::TooManySessions),
        }),
{
}

/// The table never grows past its limit: a table within the limit is
/// within the limit after any fragment.
pub proof fn lemma_count_bounded(
    sessions: Seq<SessionView>,
    max_sessions: usize,
    timeout: u64,
    peer: PeerAddr,
    frag: FragmentView,
    now: u64,
)
    requires
        sessions.len() <= max_sessions,
    ensures
        add_fragment_spec(sessions, max_sessions, timeout, peer, frag, now).sessions.len()
            <= max_sessions,
{
    lemma_live_len(sessions, now, timeout);
    lemma_position_props(live_sessions(sessions, now, timeout), peer, frag.frag_id);
}

/// There are no more live entries than entries.
pub proof fn lemma_live_len(sessions: Seq<SessionView>, now: u64, timeout: u64)
    ensures
        live_sessions(sessions, now, timeout).len() <= sessions.len(),
    decreases sessions.len(),
{
    if sessions.len() > 0 {
        lemma_live_len(sessions.drop_last(), now, timeout);
    }
}

/// Expiry on the next insert: after any fragment, no entry of the table is
/// older than the timeout allows.
pub proof fn lemma_step_drops_expired(
    sessions: Seq<SessionView>,
    max_sessions: usize,
    timeout: u64,
    peer: PeerAddr,
    frag: FragmentView,
    now: u64,
)
    ensures
        forall|i: int|
            0 <= i < add_fragment_spec(
                sessions,
                max_sessions,
                timeout,
                peer,
                frag,
                now,
            ).sessions.len() ==> !expired(
                #[trigger] add_fragment_spec(
                    sessions,
                    max_sessions,
                    timeout,
                    peer,
                    frag,
                    now,
                ).sessions[i],
                now,
                timeout,
            ),
{
    let live = live_sessions(sessions, now, timeout);
    lemma_live_members(sessions, now, timeout);
    lemma_position_props(live, peer, frag.frag_id);
    let after = add_fragment_spec(sessions, max_sessions, timeout, peer, frag, now).sessions;
    let at = position(live, peer, frag.frag_id);
    let opened = if at == live.len() {
        live.push(fresh_session(peer, frag, now))
    } else {
        live
    };
    assert forall|i: int| 0 <= i < opened.len() implies !expired(
        #[trigger] opened[i],
        now,
        timeout,
    ) by {
        if i < live.len() {
            assert(opened[i] == live[i]);
        }
    }
    assert forall|i: int| 0 <= i < after.len() implies !expired(#[trigger] after[i], now, timeout) by {
        if after == live {
            assert(after[i] == live[i]);
        } else if after == opened {
            assert(after[i] == opened[i]);
        } else if after == opened.remove(at) {
            if i < at {
                assert(after[i] == opened[i]);
            } else {
                assert(after[i] == opened[i + 1]);
            }
        } else {
            if i == at {
                assert(after[i].created_at == opened[at].created_at);
            } else {
                assert(after[i] == opened[i]);
            }
        }
    }
}

/// The fragment of index `i` of a message that was cut into `chunks`.
pub open spec fn piece(frag_id: u8, chunks: Seq<Seq<u8>>, i: int) -> FragmentView {
    FragmentView {
        frag_id,
        frag_index: i as u8,
        frag_total: chunks.len() as u8,
        data: chunks[i],
    }
}

/// The chunks of a message, joined in their order.
pub open spec fn joined(chunks: Seq<Seq<u8>>) -> Seq<u8>
    decreases chunks.len(),
{
    if chunks.len() == 0 {
        Seq::empty()
    } else {
        joined(chunks.drop_last()) + chunks.last()
    }
}

/// Whether `v` is listed in `order`.
pub open spec fn occurs(order: Seq<int>, v: int) -> bool {
    exists|i: int| 0 <= i < order.len() && #[trigger] order[i] == v
}

/// Whether `order` lists each of the indices `0..n` once.
pub open spec fn is_order(order: Seq<int>, n: int) -> bool {
    &&& order.len() == n
    &&& forall|i: int| 0 <= i < n ==> 0 <= #[trigger] order[i] < n
    &&& forall|i: int, j: int| 0 <= i < j < n ==> #[trigger] order[i] != #[trigger] order[j]
    &&& forall|v: int| 0 <= v < n ==> #[trigger] occurs(order, v)
}

/// The slots of an entry after the first `k` fragments of `order` have
/// come.
pub open spec fn delivered(chunks: Seq<Seq<u8>>, order: Seq<int>, k: nat) -> Seq<Option<Seq<u8>>>
    decreases k,
{
    if k == 0 {
        Seq::new(chunks.len(), |i: int| None::<Seq<u8>>)
    } else {
        delivered(chunks, order, (k - 1) as nat).update(
            order[k - 1],
            Some(chunks[order[k - 1]]),
        )
    }
}

/// What is known of a delivery in some order: the message has between 1
/// and 255 fragments, the order lists each index once, every fragment comes
/// within the timeout of the first, and when the first one comes the table
/// has room and no live entry for the message.
pub open spec fn delivery_ok(
    sessions: Seq<SessionView>,
    max_sessions: usize,
    timeout: u64,
    peer: PeerAddr,
    frag_id: u8,
    chunks: Seq<Seq<u8>>,
    order: Seq<int>,
    times: Seq<u64>,
) -> bool {
    &&& 1 <= chunks.len() <= 255
    &&& is_order(order, chunks.len() as int)
    &&& times.len() == chunks.len()
    &&& forall|k: int| 0 <= k < times.len() ==> #[trigger] times[k] - times[0] <= timeout
    &&& live_sessions(sessions, times[0], timeout).len() < max_sessions
    &&& position(live_sessions(sessions, times[0], timeout), peer, frag_id) == live_sessions(
        sessions,
        times[0],
        timeout,
    ).len()
}

/// The table after the first `k` fragments of `order` have come.
pub open spec fn table_after(
    sessions: Seq<SessionView>,
    max_sessions: usize,
    timeout: u64,
    peer: PeerAddr,
    frag_id: u8,
    chunks: Seq<Seq<u8>>,
    order: Seq<int>,
    times: Seq<u64>,
    k: nat,
) -> Seq<SessionView>
    decreases k,
{
    if k == 0 {
        sessions
    } else {
        add_fragment_spec(
            table_after(
                sessions,
                max_sessions,
                timeout,
                peer,
                frag_id,
                chunks,
                order,
                times,
                (k - 1) as nat,
            ),
            max_sessions,
            timeout,
            peer,
            piece(frag_id, chunks, order[k - 1]),
            times[k - 1],
        ).sessions
    }
}

/// What the fragment that comes as number `k` brings about.
pub open spec fn outcome_of(
    sessions: Seq<SessionView>,
    max_sessions: usize,
    timeout: u64,
    peer: PeerAddr,
    frag_id: u8,
    chunks: Seq<Seq<u8>>,
    order: Seq<int>,
    times: Seq<u64>,
    k: nat,
) -> Outcome {
    add_fragment_spec(
        table_after(sessions, max_sessions, timeout, peer, frag_id, chunks, order, times, k),
        max_sessions,
        timeout,
        peer,
        piece(frag_id, chunks, order[k as int]),
        times[k as int],
    ).outcome
}

/// Whether a table holds the entry of a message of which the first `k`
/// fragments of `order` have come.
pub open spec fn collecting(
    table: Seq<SessionView>,
    peer: PeerAddr,
    frag_id: u8,
    chunks: Seq<Seq<u8>>,
    order: Seq<int>,
    started: u64,
    k: nat,
) -> bool {
    let p = position(table, peer, frag_id);
    &&& p < table.len()
    &&& table[p].total == chunks.len()
    &&& table[p].created_at == started
    &&& table[p].chunks == delivered(chunks, order, k)
}

/// The slots after `k` fragments: as many as the message has fragments;
/// filled for the fragments that have come, empty for the others.
pub proof fn lemma_delivered_slots(chunks: Seq<Seq<u8>>, order: Seq<int>, k: nat)
    requires
        is_order(order, chunks.len() as int),
        k <= chunks.len(),
    ensures
        delivered(chunks, order, k).len() == chunks.len(),
        forall|i: int|
            0 <= i < k ==> delivered(chunks, order, k)[#[trigger] order[i]] == Some(
                chunks[order[i]],
            ),
        forall|i: int|
            k <= i < chunks.len() ==> delivered(chunks, order, k)[#[trigger] order[i]] is None,
    decreases k,
{
    if k > 0 {
        lemma_delivered_slots(chunks, order, (k - 1) as nat);
        let before = delivered(chunks, order, (k - 1) as nat);
        let now = delivered(chunks, order, k);
        assert(0 <= order[k - 1] < chunks.len());
        assert forall|i: int| 0 <= i < k implies now[#[trigger] order[i]] == Some(
            chunks[order[i]],
        ) by {
            assert(0 <= order[i] < chunks.len());
            if i < k - 1 {
                assert(order[i] != order[k as int - 1]);
            }
        }
        assert forall|i: int| k <= i < chunks.len() implies now[#[trigger] order[i]] is None by {
            assert(0 <= order[i] < chunks.len());
            assert(order[k as int - 1] != order[i]);
        }
    }
}

/// The first `m` chunks, each as a filled slot, join to the first `m`
/// chunks joined.
pub proof fn lemma_concat_filled(chunks: Seq<Seq<u8>>, slots: Seq<Option<Seq<u8>>>, m: int)
    requires
        0 <= m <= chunks.len(),
        slots.len() == chunks.len(),
        forall|j: int| 0 <= j < chunks.len() ==> slots[j] == Some(chunks[j]),
    ensures
        concat_chunks(slots.take(m)) == joined(chunks.take(m)),
    decreases m,
{
    if m > 0 {
        lemma_concat_filled(chunks, slots, m - 1);
        assert(slots.take(m).drop_last() =~= slots.take(m - 1));
        assert(chunks.take(m).drop_last() =~= chunks.take(m - 1));
        assert(slots.take(m).last() == slots[m - 1]);
        assert(chunks.take(m).last() == chunks[m - 1]);
    } else {
        assert(slots.take(0) =~= Seq::<Option<Seq<u8>>>::empty());
        assert(chunks.take(0) =~= Seq::<Seq<u8>>::empty());
    }
}

/// Once every fragment has come, every slot is filled, and the slots join
/// to the message.
pub proof fn lemma_delivered_all(chunks: Seq<Seq<u8>>, order: Seq<int>)
    requires
        is_order(order, chunks.len() as int),
    ensures
        all_present(delivered(chunks, order, chunks.len())),
        concat_chunks(delivered(chunks, order, chunks.len())) == joined(chunks),
{
    let slots = delivered(chunks, order, chunks.len());
    lemma_delivered_slots(chunks, order, chunks.len());
    assert forall|j: int| 0 <= j < chunks.len() implies slots[j] == Some(chunks[j]) by {
        assert(occurs(order, j));
        let i = choose|i: int| 0 <= i < order.len() && #[trigger] order[i] == j;
        assert(slots[order[i]] == Some(chunks[order[i]]));
    }
    lemma_concat_filled(chunks, slots, chunks.len() as int);
    assert(slots.take(chunks.len() as int) =~= slots);
    assert(chunks.take(chunks.len() as int) =~= chunks);
}

/// What one more fragment does to a table that already collects the
/// message: while others are missing it is kept, and the table collects one
/// fragment more; the last one completes the message.
pub proof fn lemma_next_fragment(
    table: Seq<SessionView>,
    max_sessions: usize,
    timeout: u64,
    peer: PeerAddr,
    frag_id: u8,
    chunks: Seq<Seq<u8>>,
    order: Seq<int>,
    started: u64,
    now: u64,
    k: nat,
)
    requires
        1 <= chunks.len() <= 255,
        is_order(order, chunks.len() as int),
        1 <= k < chunks.len(),
        now - started <= timeout,
        collecting(table, peer, frag_id, chunks, order, started, k),
    ensures
        ({
            let step = add_fragment_spec(
                table,
                max_sessions,
                timeout,
                peer,
                piece(frag_id, chunks, order[k as int]),
                now,
            );
            if k + 1 < chunks.len() {
                step.outcome == Outcome::Pending && collecting(
                    step.sessions,
                    peer,
                    frag_id,
                    chunks,
                    order,
                    started,
                    k + 1,
                )
            } else {
                step.outcome == Outcome::Complete(joined(chunks))
            }
        }),
{
    let n = chunks.len();
    let frag = piece(frag_id, chunks, order[k as int]);
    let p = position(table, peer, frag_id);
    let live = live_sessions(table, now, timeout);
    lemma_position_live(table, peer, frag_id, now, timeout);
    let q = position(live, peer, frag_id);
    lemma_position_props(live, peer, frag_id);
    lemma_delivered_slots(chunks, order, k);
    lemma_delivered_slots(chunks, order, k + 1);
    let entry = live[q];
    assert(entry == table[p]);
    assert(0 <= order[k as int] < n);
    assert(entry.chunks[order[k as int]] is None);
    let slots = entry.chunks.update(order[k as int], Some(chunks[order[k as int]]));
    assert(slots == delivered(chunks, order, k + 1));
    if k + 1 < n {
        assert(0 <= order[k as int + 1] < n);
        assert(slots[order[k as int + 1]] is None);
        assert(!all_present(slots));
        let after = live.update(q, SessionView { chunks: slots, ..entry });
        assert forall|j: int| 0 <= j < q implies !has_key(#[trigger] after[j], peer, frag_id) by {
            assert(after[j] == live[j]);
        }
        lemma_position_is(after, peer, frag_id, q);
    } else {
        lemma_delivered_all(chunks, order);
    }
}

/// What the first fragment does to a table that has room and no live entry
/// for the message: a message of one fragment is complete at once; of a
/// longer one the fragment is kept, and the table collects the message.
pub proof fn lemma_first_fragment(
    table: Seq<SessionView>,
    max_sessions: usize,
    timeout: u64,
    peer: PeerAddr,
    frag_id: u8,
    chunks: Seq<Seq<u8>>,
    order: Seq<int>,
    now: u64,
)
    requires
        1 <= chunks.len() <= 255,
        is_order(order, chunks.len() as int),
        live_sessions(table, now, timeout).len() < max_sessions,
        position(live_sessions(table, now, timeout), peer, frag_id) == live_sessions(
            table,
            now,
            timeout,
        ).len(),
    ensures
        ({
            let step = add_fragment_spec(
                table,
                max_sessions,
                timeout,
                peer,
                piece(frag_id, chunks, order[0]),
                now,
            );
            if 1 < chunks.len() {
                step.outcome == Outcome::Pending && collecting(
                    step.sessions,
                    peer,
                    frag_id,
                    chunks,
                    order,
                    now,
                    1,
                )
            } else {
                step.outcome == Outcome::Complete(joined(chunks))
            }
        }),
{
    let n = chunks.len();
    let frag = piece(frag_id, chunks, order[0]);
    let live = live_sessions(table, now, timeout);
    let at = live.len() as int;
    lemma_position_props(live, peer, frag_id);
    lemma_delivered_slots(chunks, order, 0);
    lemma_delivered_slots(chunks, order, 1);
    let entry = fresh_session(peer, frag, now);
    let opened = live.push(entry);
    assert(opened[at] == entry);
    assert(0 <= order[0] < n);
    assert(entry.chunks =~= delivered(chunks, order, 0));
    let slots = entry.chunks.update(order[0], Some(chunks[order[0]]));
    assert(slots == delivered(chunks, order, 1));
    if 1 < n {
        assert(0 <= order[1] < n);
        assert(slots[order[1]] is None);
        assert(!all_present(slots));
        let after = opened.update(at, SessionView { chunks: slots, ..entry });
        assert forall|j: int| 0 <= j < at implies !has_key(#[trigger] after[j], peer, frag_id) by {
            assert(after[j] == live[j]);
        }
        lemma_position_is(after, peer, frag_id, at);
    } else {
        lemma_delivered_all(chunks, order);
    }
}

/// While fragments are missing, each one that comes is kept, and the table
/// collects the message.
pub proof fn lemma_collecting(
    sessions: Seq<SessionView>,
    max_sessions: usize,
    timeout: u64,
    peer: PeerAddr,
    frag_id: u8,
    chunks: Seq<Seq<u8>>,
    order: Seq<int>,
    times: Seq<u64>,
    k: nat,
)
    requires
        delivery_ok(sessions, max_sessions, timeout, peer, frag_id, chunks, order, times),
        1 <= k < chunks.len(),
    ensures
        collecting(
            table_after(sessions, max_sessions, timeout, peer, frag_id, chunks, order, times, k),
            peer,
            frag_id,
            chunks,
            order,
            times[0],
            k,
        ),
        forall|j: nat|
            j < k ==> #[trigger] outcome_of(
                sessions,
                max_sessions,
                timeout,
                peer,
                frag_id,
                chunks,
                order,
                times,
                j,
            ) == Outcome::Pending,
    decreases k,
{
    if k == 1 {
        lemma_first_fragment(
            sessions,
            max_sessions,
            timeout,
            peer,
            frag_id,
            chunks,
            order,
            times[0],
        );
        assert(table_after(
            sessions,
            max_sessions,
            timeout,
            peer,
            frag_id,
            chunks,
            order,
            times,
            0,
        ) == sessions);
    } else {
        lemma_collecting(
            sessions,
            max_sessions,
            timeout,
            peer,
            frag_id,
            chunks,
            order,
            times,
            (k - 1) as nat,
        );
        let before = table_after(
            sessions,
            max_sessions,
            timeout,
            peer,
            frag_id,
            chunks,
            order,
            times,
            (k - 1) as nat,
        );
        assert(times[k - 1] - times[0] <= timeout);
        lemma_next_fragment(
            before,
            max_sessions,
            timeout,
            peer,
            frag_id,
            chunks,
            order,
            times[0],
            times[k - 1],
            (k - 1) as nat,
        );
    }
}

/// Out-of-order reassembly: in whatever order the fragments of a message
/// come, each one but the last is kept, and the last one hands out the
/// chunks joined in the order of their indices.
pub proof fn lemma_any_order_assembles(
    sessions: Seq<SessionView>,
    max_sessions: usize,
    timeout: u64,
    peer: PeerAddr,
    frag_id: u8,
    chunks: Seq<Seq<u8>>,
    order: Seq<int>,
    times: Seq<u64>,
)
    requires
        delivery_ok(sessions, max_sessions, timeout, peer, frag_id, chunks, order, times),
    ensures
        forall|j: nat|
            j < chunks.len() - 1 ==> #[trigger] outcome_of(
                sessions,
                max_sessions,
                timeout,
                peer,
                frag_id,
                chunks,
                order,
                times,
                j,
            ) == Outcome::Pending,
        outcome_of(
            sessions,
            max_sessions,
            timeout,
            peer,
            frag_id,
            chunks,
            order,
            times,
            (chunks.len() - 1) as nat,
        ) == Outcome::Complete(joined(chunks)),
{
    let n = chunks.len();
    if n == 1 {
        lemma_first_fragment(
            sessions,
            max_sessions,
            timeout,
            peer,
            frag_id,
            chunks,
            order,
            times[0],
        );
    } else {
        lemma_collecting(
            sessions,
            max_sessions,
            timeout,
            peer,
            frag_id,
            chunks,
            order,
            times,
            (n - 1) as nat,
        );
        let before = table_after(
            sessions,
            max_sessions,
            timeout,
            peer,
            frag_id,
            chunks,
            order,
            times,
            (n - 1) as nat,
        );
        assert(times[n - 1] - times[0] <= timeout);
        lemma_next_fragment(
            before,
            max_sessions,
            timeout,
            peer,
            frag_id,
            chunks,
            order,
            times[0],
            times[n - 1],
            (n - 1) as nat,
        );
    }
}

} // verus!
