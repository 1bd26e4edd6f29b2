//! Acknowledged delivery over UDP: message ids, acknowledgements, and the
//! schedule of retries.

use vstd::prelude::*;
use vstd::slice::slice_to_vec;
use crate::decimal::{decimal_bytes, format_decimal, parse_decimal, parse_decimal_spec};
use crate::flags::Flags;
use crate::peer::PeerAddr;
use crate::types::{first_header, Frame, FrameType, FrameView, Header, HeaderView, VSTP_VERSION};

verus! {

/// The key `msg-id`.
pub open spec fn msg_id_key() -> Seq<u8> {
    seq![109u8, 115u8, 103u8, 45u8, 105u8, 100u8]
}

/// The key `msg-id`.
pub fn msg_id_key_bytes() -> (r: Vec<u8>)
    ensures
        r@ == msg_id_key(),
{
    let r = vec![109u8, 115u8, 103u8, 45u8, 105u8, 100u8];
    assert(r@ =~= msg_id_key());
    r
}

/// The message id that a frame carries: the number in its first `msg-id`
/// header, if that is a decimal number of 64 bits.
pub open spec fn msg_id_spec(f: FrameView) -> Option<u64> {
    match first_header(f.headers, msg_id_key()) {
        Some(text) => match parse_decimal_spec(text, u64::MAX as nat) {
            Some(n) => Some(n as u64),
            None => None,
        },
        None => None,
    }
}

/// The message id that a frame carries.
pub fn extract_msg_id(frame: &Frame) -> (r: Option<u64>)
    ensures
        r == msg_id_spec(frame@),
{
    let key = msg_id_key_bytes();
    match frame.header_value(key.as_slice()) {
        Some(text) => parse_decimal(text, u64::MAX),
        None => None,
    }
}

/// The acknowledgement that a delivered frame asks for, if it asks for
/// one: it does when it has the `REQ_ACK` flag and carries a message id. The
/// acknowledgement is an `Ack` frame whose one header repeats the `msg-id`
/// header's value byte for byte.
pub open spec fn ack_for_spec(f: FrameView) -> Option<FrameView> {
    if f.flags & Flags::REQ_ACK == Flags::REQ_ACK && msg_id_spec(f) is Some {
        Some(
            FrameView {
                version: VSTP_VERSION,
                typ: FrameType::Ack,
                flags: 0,
                headers: seq![
                    HeaderView {
                        key: msg_id_key(),
                        value: first_header(f.headers, msg_id_key())->0,
                    },
                ],
                payload: Seq::empty(),
            },
        )
    } else {
        None
    }
}

/// The acknowledgement to send for a delivered frame, if any.
pub fn ack_for(frame: &Frame) -> (r: Option<Frame>)
    ensures
        match r {
            Some(ack) => ack_for_spec(frame@) == Some(ack@),
            None => ack_for_spec(frame@) is None,
        },
{
    if !frame.flags.contains(Flags::REQ_ACK) {
        return None;
    }
    if extract_msg_id(frame).is_none() {
        return None;
    }
    let key = msg_id_key_bytes();
    match frame.header_value(key.as_slice()) {
        Some(text) => {
            let mut ack = Frame::new(FrameType::Ack);
            ack.headers.push(Header { key, value: slice_to_vec(text) });
            assert(ack@.headers =~= seq![HeaderView { key: msg_id_key(), value: text@ }]);
            Some(ack)
        },
        None => None,
    }
}

/// Whether a frame that came from `from` acknowledges the message `msg_id`
/// sent to `dest`: it comes from there, is an `Ack` frame, and carries that
/// message id.
pub open spec fn is_matching_ack_spec(f: FrameView, from: PeerAddr, dest: PeerAddr, msg_id: u64)
    -> bool {
    from == dest && f.typ == FrameType::Ack && msg_id_spec(f) == Some(msg_id)
}

/// Whether a frame that came from `from` acknowledges the message `msg_id`
/// sent to `dest`.
pub fn is_matching_ack(frame: &Frame, from: PeerAddr, dest: PeerAddr, msg_id: u64) -> (r: bool)
    ensures
        r == is_matching_ack_spec(frame@, from, dest, msg_id),
{
    if from != dest {
        return false;
    }
    match frame.typ {
        FrameType::Ack => {},
        _ => {
            return false;
        },
    }
    match extract_msg_id(frame) {
        Some(id) => id == msg_id,
        None => false,
    }
}

/// A frame made ready for acknowledged delivery: the `msg-id` header is
/// appended and `REQ_ACK` is set.
pub open spec fn with_msg_id_spec(f: FrameView, msg_id: u64) -> FrameView {
    FrameView {
        flags: f.flags | Flags::REQ_ACK,
        headers: f.headers.push(
            HeaderView { key: msg_id_key(), value: decimal_bytes(msg_id as nat) },
        ),
        ..f
    }
}

/// Makes a frame ready for acknowledged delivery.
pub fn with_msg_id(frame: Frame, msg_id: u64) -> (r: Frame)
    ensures
        r@ == with_msg_id_spec(frame@, msg_id),
{
    let mut r = frame;
    r.headers.push(Header { key: msg_id_key_bytes(), value: format_decimal(msg_id) });
    r.flags.insert(Flags::REQ_ACK);
    assert(r@.headers =~= frame@.headers.push(
        HeaderView { key: msg_id_key(), value: decimal_bytes(msg_id as nat) },
    ));
    r
}

/// Two to the power `n`.
pub open spec fn pow2(n: nat) -> nat
    decreases n,
{
    if n == 0 {
        1
    } else {
        2 * pow2((n - 1) as nat)
    }
}

/// The pause before the retry that follows the failed attempt of the given
/// number: the first delay doubled once per earlier attempt, but never more
/// than the cap.
pub open spec fn retry_delay_spec(retry_delay: u64, max_retry_delay: u64, attempt: nat) -> int {
    if retry_delay * pow2(attempt) < max_retry_delay {
        retry_delay * pow2(attempt)
    } else {
        max_retry_delay as int
    }
}

/// Powers of two grow.
pub proof fn lemma_pow2_grows(n: nat)
    ensures
        pow2(n) >= 1,
        pow2(n + 1) == 2 * pow2(n),
    decreases n,
{
    if n > 0 {
        lemma_pow2_grows((n - 1) as nat);
    }
}

/// The pause before the retry that follows the failed attempt of the given
/// number, in milliseconds.
pub fn calculate_retry_delay(retry_delay: u64, max_retry_delay: u64, attempt: usize) -> (r: u64)
    ensures
        r == retry_delay_spec(retry_delay, max_retry_delay, attempt as nat),
{
    let mut delay: u64 = retry_delay;
    let mut i: usize = 0;
    assert(retry_delay * pow2(0) == retry_delay) by (nonlinear_arith)
        requires
            pow2(0) == 1,
    ;
    while i < attempt
        invariant
            i <= attempt,
            delay == retry_delay * pow2(i as nat),
            delay < max_retry_delay || i == 0,
        decreases attempt - i,
    {
        proof {
            lemma_pow2_grows(i as nat);
            assert(retry_delay * pow2((i + 1) as nat) == 2 * (retry_delay * pow2(i as nat)))
                by (nonlinear_arith)
                requires
                    pow2((i + 1) as nat) == 2 * pow2(i as nat),
            ;
        }
        if delay >= max_retry_delay || delay > max_retry_delay / 2 {
            proof {
                lemma_delay_capped(retry_delay, max_retry_delay, (i + 1) as nat, attempt as nat);
            }
            return max_retry_delay;
        }
        delay = delay * 2;
        if delay >= max_retry_delay {
            proof {
                lemma_delay_capped(retry_delay, max_retry_delay, (i + 1) as nat, attempt as nat);
            }
            return max_retry_delay;
        }
        i += 1;
    }
    if delay < max_retry_delay {
        delay
    } else {
        max_retry_delay
    }
}

/// Once the doubled delay has reached the cap it stays there.
pub proof fn lemma_delay_capped(retry_delay: u64, max_retry_delay: u64, i: nat, attempt: nat)
    requires
        i <= attempt,
        retry_delay * pow2(i) >= max_retry_delay,
    ensures
        retry_delay_spec(retry_delay, max_retry_delay, attempt) == max_retry_delay,
    decreases attempt - i,
{
    if i < attempt {
        lemma_pow2_grows(i);
        assert(retry_delay * pow2(i + 1) >= retry_delay * pow2(i)) by (nonlinear_arith)
            requires
                pow2(i + 1) == 2 * pow2(i),
        ;
        lemma_delay_capped(retry_delay, max_retry_delay, i + 1, attempt);
    }
}

/// The settings of a UDP client. Times are in milliseconds.
#[derive(Debug, Clone, Copy, PartialEq, Eq, Structural)]
pub struct UdpConfig {
    /// How many times a message is sent again after the first attempt.
    pub max_retries: usize,
    /// The pause before the first retry.
    pub retry_delay: u64,
    /// The longest pause before a retry.
    pub max_retry_delay: u64,
    /// How long one attempt waits for its acknowledgement.
    pub ack_timeout: u64,
    /// Whether checksums are validated.
    pub use_crc: bool,
    /// Whether frames too long for one datagram are sent as fragments.
    pub allow_frag: bool,
}

impl Default for UdpConfig {
    /// Three retries, pauses from 100 ms up to 5 s, 2 s per attempt,
    /// checksums and fragmentation on.
    fn default() -> (r: UdpConfig)
        ensures
            r == (UdpConfig {
                max_retries: 3,
                retry_delay: 100,
                max_retry_delay: 5000,
                ack_timeout: 2000,
                use_crc: true,
                allow_frag: true,
            }),
    {
        UdpConfig {
            max_retries: 3,
            retry_delay: 100,
            max_retry_delay: 5000,
            ack_timeout: 2000,
            use_crc: true,
            allow_frag: true,
        }
    }
}

/// The settings of a UDP server.
#[derive(Debug, Clone, Copy, PartialEq, Eq, Structural)]
pub struct UdpServerConfig {
    /// Whether checksums are validated.
    pub use_crc: bool,
    /// Whether fragments are reassembled.
    pub allow_frag: bool,
    /// The most messages that are reassembled at one time.
    pub max_reassembly_sessions: usize,
}

impl Default for UdpServerConfig {
    /// Checksums and fragmentation on, a thousand messages in reassembly.
    fn default() -> (r: UdpServerConfig)
        ensures
            r == (UdpServerConfig {
                use_crc: true,
                allow_frag: true,
                max_reassembly_sessions: 1000,
            }),
    {
        UdpServerConfig { use_crc: true, allow_frag: true, max_reassembly_sessions: 1000 }
    }
}

/// Where an acknowledged delivery stands.
#[derive(Debug, Clone, Copy, PartialEq, Eq, Structural)]
pub enum SendPhase {
    /// An attempt is under way and its acknowledgement has not come.
    AwaitingAck,
    /// The acknowledgement has come.
    Delivered,
    /// Every attempt went unanswered.
    TimedOut,
}

/// What the sender does after an attempt.
#[derive(Debug, Clone, Copy, PartialEq, Eq, Structural)]
pub enum SendAction {
    /// Nothing more: the message was acknowledged.
    Finished,
    /// Pause for so many milliseconds, then send the message again.
    Retry { delay_ms: u64 },
    /// Give up and report a timeout.
    Failed,
}

/// One acknowledged delivery: the message id, where it goes, how many
/// attempts have failed, and the retry settings.
#[derive(Debug, Clone, Copy, PartialEq, Eq, Structural)]
pub struct ReliableSend {
    pub msg_id: u64,
    pub dest: PeerAddr,
    pub attempt: usize,
    pub phase: SendPhase,
    pub max_retries: usize,
    pub retry_delay: u64,
    pub max_retry_delay: u64,
    pub ack_timeout: u64,
}

/// The delivery after an attempt that was acknowledged (`acked`) or ran
/// into its deadline, and what the sender does next.
///
/// An acknowledgement finishes the delivery. A deadline leads to a retry
/// while fewer than `max_retries` attempts have failed before, after a pause
/// that doubles from attempt to attempt up to the cap; otherwise the
/// delivery has timed out. A delivery that is over stays as it is.
pub open spec fn send_step(s: ReliableSend, acked: bool) -> (ReliableSend, SendAction) {
    match s.phase {
        SendPhase::Delivered => (s, SendAction::Finished),
        SendPhase::TimedOut => (s, SendAction::Failed),
        SendPhase::AwaitingAck => if acked {
            (ReliableSend { phase: SendPhase::Delivered, ..s }, SendAction::Finished)
        } else if s.attempt < s.max_retries {
            (
                ReliableSend { attempt: (s.attempt + 1) as usize, ..s },
                SendAction::Retry {
                    delay_ms: retry_delay_spec(
                        s.retry_delay,
                        s.max_retry_delay,
                        s.attempt as nat,
                    ) as u64,
                },
            )
        } else {
            (ReliableSend { phase: SendPhase::TimedOut, ..s }, SendAction::Failed)
        },
    }
}

/// The delivery after a run of attempts, each acknowledged or not.
pub open spec fn send_run(s: ReliableSend, attempts: Seq<bool>) -> ReliableSend
    decreases attempts.len(),
{
    if attempts.len() == 0 {
        s
    } else {
        send_run(send_step(s, attempts[0]).0, attempts.drop_first())
    }
}

impl ReliableSend {
    /// A delivery whose first attempt is under way.
    pub fn start(msg_id: u64, dest: PeerAddr, config: &UdpConfig) -> (r: ReliableSend)
        ensures
            r == (ReliableSend {
                msg_id,
                dest,
                attempt: 0,
                phase: SendPhase::AwaitingAck,
                max_retries: config.max_retries,
                retry_delay: config.retry_delay,
                max_retry_delay: config.max_retry_delay,
                ack_timeout: config.ack_timeout,
            }),
    {
        ReliableSend {
            msg_id,
            dest,
            attempt: 0,
            phase: SendPhase::AwaitingAck,
            max_retries: config.max_retries,
            retry_delay: config.retry_delay,
            max_retry_delay: config.max_retry_delay,
            ack_timeout: config.ack_timeout,
        }
    }

    /// Whether an attempt that has waited `waited_ms` milliseconds for its
    /// acknowledgement has reached its deadline.
    pub fn deadline_passed(&self, waited_ms: u64) -> (r: bool)
        ensures
            r == (waited_ms >= self.ack_timeout),
    {
        waited_ms >= self.ack_timeout
    }

    /// Whether a frame that came from `from` is this delivery's
    /// acknowledgement.
    pub fn accepts(&self, frame: &Frame, from: PeerAddr) -> (r: bool)
        ensures
            r == is_matching_ack_spec(frame@, from, self.dest, self.msg_id),
    {
        is_matching_ack(frame, from, self.dest, self.msg_id)
    }

    /// Records how an attempt ended and says what to do next.
    pub fn attempt_done(&mut self, acked: bool) -> (action: SendAction)
        ensures
            (*final(self), action) == send_step(*old(self), acked),
    {
        match self.phase {
            SendPhase::Delivered => SendAction::Finished,
            SendPhase::TimedOut => SendAction::Failed,
            SendPhase::AwaitingAck => {
                if acked {
                    self.phase = SendPhase::Delivered;
                    SendAction::Finished
                } else if self.attempt < self.max_retries {
                    let delay_ms = calculate_retry_delay(
                        self.retry_delay,
                        self.max_retry_delay,
                        self.attempt,
                    );
                    self.attempt = self.attempt + 1;
                    SendAction::Retry { delay_ms }
                } else {
                    self.phase = SendPhase::TimedOut;
                    SendAction::Failed
                }
            },
        }
    }
}

/// The counters of a UDP client.
#[derive(Debug, Clone, Copy, PartialEq, Eq, Structural)]
pub struct UdpSendState {
    pub config: UdpConfig,
    pub next_msg_id: u64,
}

impl UdpSendState {
    /// The counters of a new client: the first message id is 1.
    pub fn new(config: UdpConfig) -> (r: UdpSendState)
        ensures
            r == (UdpSendState { config, next_msg_id: 1 }),
    {
        UdpSendState { config, next_msg_id: 1 }
    }

    /// The fragment id for the next fragmented message: the low eight bits
    /// of the next message id.
    pub fn fragment_id(&self) -> (r: u8)
        ensures
            r == self.next_msg_id % 256,
    {
        (self.next_msg_id % 256) as u8
    }

    /// Starts an acknowledged delivery of `frame` to `dest`: takes the next
    /// message id, which is never handed out again, and makes the frame
    /// ready. After `u64::MAX` the ids start again at 0.
    pub fn begin_reliable(&mut self, frame: Frame, dest: PeerAddr) -> (r: (Frame, ReliableSend))
        ensures
            final(self).config == old(self).config,
            final(self).next_msg_id == (if old(self).next_msg_id == u64::MAX {
                0
            } else {
                old(self).next_msg_id + 1
            }),
            r.0@ == with_msg_id_spec(frame@, old(self).next_msg_id),
            r.1 == (ReliableSend {
                msg_id: old(self).next_msg_id,
                dest,
                attempt: 0,
                phase: SendPhase::AwaitingAck,
                max_retries: old(self).config.max_retries,
                retry_delay: old(self).config.retry_delay,
                max_retry_delay: old(self).config.max_retry_delay,
                ack_timeout: old(self).config.ack_timeout,
            }),
    {
        let msg_id = self.next_msg_id;
        self.next_msg_id = if msg_id == u64::MAX {
            0
        } else {
            msg_id + 1
        };
        let ready = with_msg_id(frame, msg_id);
        let delivery = ReliableSend::start(msg_id, dest, &self.config);
        (ready, delivery)
    }
}

/// `k` attempts without an acknowledgement.
pub open spec fn unanswered(k: nat) -> Seq<bool> {
    Seq::new(k, |i: int| false)
}

/// After `k` unanswered attempts, with retries left for each, the delivery
/// is at its attempt number `k` and still waiting.
pub proof fn lemma_unanswered_run(s: ReliableSend, k: nat)
    requires
        s.phase == SendPhase::AwaitingAck,
        s.attempt + k <= s.max_retries,
    ensures
        send_run(s, unanswered(k)) == (ReliableSend { attempt: (s.attempt + k) as usize, ..s }),
    decreases k,
{
    if k > 0 {
        let next = send_step(s, false).0;
        assert(unanswered(k)[0] == false);
        assert(unanswered(k).drop_first() =~= unanswered((k - 1) as nat));
        lemma_unanswered_run(next, (k - 1) as nat);
    }
}

/// A run of attempts followed by more attempts is the run of all of them.
pub proof fn lemma_send_run_append(s: ReliableSend, first: Seq<bool>, then: Seq<bool>)
    ensures
        send_run(s, first + then) == send_run(send_run(s, first), then),
    decreases first.len(),
{
    if first.len() == 0 {
        assert(first + then =~= then);
    } else {
        assert((first + then)[0] == first[0]);
        assert((first + then).drop_first() =~= first.drop_first() + then);
        lemma_send_run_append(send_step(s, first[0]).0, first.drop_first(), then);
    }
}

/// Acknowledged after losses: when the first `k` attempts go unanswered,
/// with `k` at most the number of retries, and the next one is
/// acknowledged, the delivery succeeds.
pub proof fn lemma_ack_after_losses(s: ReliableSend, k: nat)
    requires
        s.phase == SendPhase::AwaitingAck,
        s.attempt == 0,
        k <= s.max_retries,
    ensures
        send_run(s, unanswered(k).push(true)).phase == SendPhase::Delivered,
{
    lemma_unanswered_run(s, k);
    assert(unanswered(k).push(true) =~= unanswered(k) + seq![true]);
    lemma_send_run_append(s, unanswered(k), seq![true]);
    let mid = send_run(s, unanswered(k));
    assert(seq![true].drop_first() =~= Seq::<bool>::empty());
    assert(send_run(mid, seq![true]) == send_run(
        send_step(mid, true).0,
        seq![true].drop_first(),
    ));
}

/// All attempts lost: when the first attempt and every retry go
/// unanswered, the delivery times out.
pub proof fn lemma_all_lost_times_out(s: ReliableSend)
    requires
        s.phase == SendPhase::AwaitingAck,
        s.attempt == 0,
    ensures
        send_run(s, unanswered((s.max_retries + 1) as nat)).phase == SendPhase::TimedOut,
{
    let k = s.max_retries as nat;
    lemma_unanswered_run(s, k);
    assert(unanswered(k + 1) =~= unanswered(k) + seq![false]);
    lemma_send_run_append(s, unanswered(k), seq![false]);
    let mid = send_run(s, unanswered(k));
    assert(seq![false].drop_first() =~= Seq::<bool>::empty());
    assert(send_run(mid, seq![false]) == send_run(
        send_step(mid, false).0,
        seq![false].drop_first(),
    ));
}

} // verus!
