//! One TCP connection: its sequence counters, its state, and the bytes it
//! holds for the peer and for the application.

use crate::error::UtcpError;
use crate::tcp::congestion::{Reno, MSS};
use crate::wire::tcp::{parse, tcp_parse, Segment, TcpView, FLAG_ACK, FLAG_FIN, FLAG_SYN};
use vstd::prelude::*;
use vstd::slice::slice_to_vec;

verus! {

/// The retransmission timeout that a connection starts with, in milliseconds.
pub const INITIAL_RTO_MS: u64 = 300;

/// The longest retransmission timeout, in milliseconds.
pub const MAX_RTO_MS: u64 = 60_000;

/// How many timeouts in a row a connection survives.
pub const MAX_RETRIES: u32 = 12;

/// How long a connection stays in `TimeWait`, and how long an unanswered
/// handshake is kept, in milliseconds.
pub const TIME_WAIT_MS: u64 = 60_000;

/// The window that the engine advertises.
pub const DEFAULT_WINDOW: u16 = 65_535;

/// The most payload bytes that fit one IPv4 frame behind a 20-byte IPv4
/// header and a 20-byte TCP header.
pub const MAX_PAYLOAD: usize = 65_495;

/// The key of a connection: local address and port, remote address and port.
#[derive(Clone, Copy, Debug, PartialEq, Eq, Hash)]
pub struct Quad {
    pub src_ip: [u8; 4],
    pub src_port: u16,
    pub dst_ip: [u8; 4],
    pub dst_port: u16,
}

/// Whether two addresses hold the same four bytes.
pub fn same_ip(a: &[u8; 4], b: &[u8; 4]) -> (r: bool)
    ensures
        r == (*a == *b),
{
    let r: bool = a[0] == b[0] && a[1] == b[1] && a[2] == b[2] && a[3] == b[3];
    proof {
        if r {
            assert(a@ =~= b@);
            vstd::array::axiom_array_ext_equal(*a, *b);
        }
    }
    r
}

impl Quad {
    /// Whether two keys name the same connection.
    pub fn same(&self, other: &Quad) -> (r: bool)
        ensures
            r == (*self == *other),
    {
        self.src_port == other.src_port && self.dst_port == other.dst_port && same_ip(
            &self.src_ip,
            &other.src_ip,
        ) && same_ip(&self.dst_ip, &other.dst_ip)
    }
}

/// The ten states of a connection.
#[derive(Debug, Clone, Copy, PartialEq, Eq, Structural)]
pub enum State {
    Closed,
    Listen,
    SynSent,
    SynReceived,
    Established,
    FinWait1,
    FinWait2,
    CloseWait,
    LastAck,
    TimeWait,
}

/// What the engine owes the peer after a segment.
#[derive(Debug, Clone, Copy, PartialEq, Eq, Structural)]
pub enum RxAction {
    /// Nothing.
    Nothing,
    /// An acknowledgment.
    SendAck,
    /// A SYN with an acknowledgment.
    SendSynAck,
    /// An acknowledgment; payload went to the application.
    DeliverAndAck,
}

/// Whether `flag` is set in `flags`.
pub open spec fn has_flag(flags: u16, flag: u16) -> bool {
    flags & flag != 0
}

/// `a` advanced by `n`, modulo 2^32.
pub open spec fn seq_add(a: u32, n: nat) -> u32 {
    ((a + n) % 0x1_0000_0000) as u32
}

/// How far `a` lies ahead of `b`, modulo 2^32.
pub open spec fn seq_diff(a: u32, b: u32) -> nat {
    ((a - b) % 0x1_0000_0000) as nat
}

/// The smaller of two numbers.
pub open spec fn least(a: nat, b: nat) -> nat {
    if a <= b {
        a
    } else {
        b
    }
}

/// Whether a connection in this state may send application data.
pub open spec fn sends_data(state: State) -> bool {
    state == State::Established || state == State::CloseWait
}

/// Whether a connection in this state has sent a FIN that may be unacknowledged.
pub open spec fn fin_in_flight(state: State) -> bool {
    state == State::FinWait1 || state == State::LastAck
}

/// Whether a connection in this state keeps a retransmission timer.
pub open spec fn retransmits(state: State) -> bool {
    sends_data(state) || fin_in_flight(state)
}

/// A connection as a value: every counter, and each buffer as the sequence
/// of bytes it holds.
#[verifier::ext_equal]
pub struct ConnModel {
    pub id: Quad,
    pub state: State,
    pub iss: u32,
    pub snd_una: u32,
    pub snd_nxt: u32,
    pub rcv_nxt: u32,
    pub cc: Reno,
    pub peer_window: u16,
    pub mss: usize,
    pub rto: u64,
    pub last_activity: u64,
    pub retries: u32,
    pub unacked: Seq<u8>,
    pub tx_queue: Seq<u8>,
    pub rx_buf: Seq<u8>,
    pub rx_eof: bool,
}

impl ConnModel {
    /// The sequence space in flight, `snd_nxt - snd_una` modulo 2^32.
    pub open spec fn flight(self) -> nat {
        seq_diff(self.snd_nxt, self.snd_una)
    }

    /// The retransmission buffer matches the counters: while data may be in
    /// flight it holds exactly the bytes of `[snd_una, snd_nxt)`, less the
    /// one sequence number that a FIN takes; before the handshake completes
    /// and once both directions are closed it is empty. Its length never
    /// exceeds the largest window.
    pub open spec fn wf(self) -> bool {
        &&& self.unacked.len() <= 65_535
        &&& match self.state {
            State::Established | State::CloseWait => self.unacked.len() == self.flight(),
            State::FinWait1 | State::LastAck => self.unacked.len() + 1 == self.flight(),
            State::Listen | State::SynSent | State::SynReceived | State::FinWait2 => {
                self.unacked.len() == 0 && self.snd_una == self.snd_nxt
            },
            _ => true,
        }
    }

    /// Whether `s` acknowledges sequence space that was in flight.
    pub open spec fn ack_is_new(self, s: Segment) -> bool {
        &&& has_flag(s.flags, FLAG_ACK)
        &&& 0 < seq_diff(s.ack, self.snd_una) <= self.flight()
    }

    /// How many buffered bytes `s` acknowledges.
    pub open spec fn acked_bytes(self, s: Segment) -> nat {
        least(seq_diff(s.ack, self.snd_una), self.unacked.len())
    }

    /// The connection after the acknowledgment field of `s` is taken in. A
    /// new acknowledgment releases the bytes it covers, moves `snd_una`,
    /// tells the congestion controller, and resets the backoff; one that
    /// repeats `snd_una` only refreshes the peer's window; any other is
    /// ignored.
    pub open spec fn after_ack(self, s: Segment) -> ConnModel {
        if self.ack_is_new(s) {
            ConnModel {
                snd_una: s.ack,
                unacked: self.unacked.skip(self.acked_bytes(s) as int),
                cc: self.cc.after_ack(),
                peer_window: s.window,
                retries: 0,
                rto: INITIAL_RTO_MS,
                ..self
            }
        } else if has_flag(s.flags, FLAG_ACK) && s.ack == self.snd_una {
            ConnModel { peer_window: s.window, ..self }
        } else {
            self
        }
    }

    /// The connection after the peer's FIN in `s`, in `state`.
    pub open spec fn after_fin(self, s: Segment, state: State) -> ConnModel {
        ConnModel { state, rcv_nxt: seq_add(s.seq, 1), rx_eof: true, ..self }
    }

    /// The connection after segment `s`, and what is owed to the peer.
    pub open spec fn after_segment(self, s: Segment) -> (ConnModel, RxAction) {
        match self.state {
            State::Listen => {
                if has_flag(s.flags, FLAG_SYN) && !has_flag(s.flags, FLAG_ACK) {
                    (
                        ConnModel {
                            state: State::SynReceived,
                            rcv_nxt: seq_add(s.seq, 1),
                            peer_window: s.window,
                            ..self
                        },
                        RxAction::SendSynAck,
                    )
                } else {
                    (self, RxAction::Nothing)
                }
            },
            State::SynSent => {
                if has_flag(s.flags, FLAG_SYN) && has_flag(s.flags, FLAG_ACK) && s.ack == seq_add(
                    self.iss,
                    1,
                ) {
                    (
                        ConnModel {
                            state: State::Established,
                            rcv_nxt: seq_add(s.seq, 1),
                            snd_una: s.ack,
                            snd_nxt: s.ack,
                            peer_window: s.window,
                            unacked: Seq::empty(),
                            ..self
                        },
                        RxAction::SendAck,
                    )
                } else {
                    (self, RxAction::Nothing)
                }
            },
            State::SynReceived => {
                if has_flag(s.flags, FLAG_ACK) && s.ack == seq_add(self.iss, 1) {
                    (
                        ConnModel {
                            state: State::Established,
                            snd_una: s.ack,
                            snd_nxt: s.ack,
                            peer_window: s.window,
                            unacked: Seq::empty(),
                            ..self
                        },
                        RxAction::Nothing,
                    )
                } else {
                    (self, RxAction::Nothing)
                }
            },
            State::Established => {
                let a = self.after_ack(s);
                if has_flag(s.flags, FLAG_FIN) {
                    (a.after_fin(s, State::CloseWait), RxAction::SendAck)
                } else if s.payload.len() > 0 {
                    (
                        ConnModel {
                            rx_buf: a.rx_buf + s.payload,
                            rcv_nxt: seq_add(s.seq, s.payload.len()),
                            ..a
                        },
                        RxAction::DeliverAndAck,
                    )
                } else {
                    (a, RxAction::Nothing)
                }
            },
            State::CloseWait => (self.after_ack(s), RxAction::Nothing),
            State::FinWait1 => {
                let a = self.after_ack(s);
                if has_flag(s.flags, FLAG_FIN) {
                    (a.after_fin(s, State::TimeWait), RxAction::SendAck)
                } else if has_flag(s.flags, FLAG_ACK) && s.ack == self.snd_nxt {
                    (ConnModel { state: State::FinWait2, ..a }, RxAction::Nothing)
                } else {
                    (a, RxAction::Nothing)
                }
            },
            State::FinWait2 => {
                if has_flag(s.flags, FLAG_FIN) {
                    (self.after_fin(s, State::TimeWait), RxAction::SendAck)
                } else {
                    (self, RxAction::Nothing)
                }
            },
            State::LastAck => {
                let a = self.after_ack(s);
                if has_flag(s.flags, FLAG_ACK) && s.ack == self.snd_nxt {
                    (ConnModel { state: State::Closed, ..a }, RxAction::Nothing)
                } else {
                    (a, RxAction::Nothing)
                }
            },
            _ => (self, RxAction::Nothing),
        }
    }

    /// The lesser of the congestion window and the peer's window.
    pub open spec fn send_window(self) -> nat {
        least(self.cc.cwnd as nat, self.peer_window as nat)
    }

    /// The most payload bytes of one segment: `mss`, and never more than a
    /// frame can carry.
    pub open spec fn segment_cap(self) -> nat {
        least(self.mss as nat, MAX_PAYLOAD as nat)
    }

    /// How many queued bytes the next segment takes: none unless the state
    /// sends data and the window has room; else what fits in the room, in
    /// the queue and in one segment.
    pub open spec fn sendable(self) -> nat {
        if sends_data(self.state) && self.unacked.len() < self.send_window() {
            least(
                least((self.send_window() - self.unacked.len()) as nat, self.tx_queue.len()),
                self.segment_cap(),
            )
        } else {
            0
        }
    }

    /// The connection after its next segment's payload left the queue.
    pub open spec fn after_poll_send(self) -> ConnModel {
        ConnModel {
            tx_queue: self.tx_queue.skip(self.sendable() as int),
            unacked: self.unacked + self.tx_queue.take(self.sendable() as int),
            snd_nxt: seq_add(self.snd_nxt, self.sendable()),
            ..self
        }
    }

    /// Whether a local close sends a FIN from this state.
    pub open spec fn closes(self) -> bool {
        sends_data(self.state)
    }

    /// The connection after a local close: a FIN takes one sequence number,
    /// and bytes still queued are dropped.
    pub open spec fn after_close(self) -> ConnModel {
        if self.closes() {
            ConnModel {
                state: if self.state == State::Established {
                    State::FinWait1
                } else {
                    State::LastAck
                },
                snd_nxt: seq_add(self.snd_nxt, 1),
                tx_queue: Seq::empty(),
                ..self
            }
        } else {
            self
        }
    }

    /// Whether the connection is given up at its next timeout.
    pub open spec fn exhausted(self) -> bool {
        self.retries >= MAX_RETRIES
    }

    /// The timeout doubled, held at `MAX_RTO_MS`.
    pub open spec fn backed_off(rto: u64) -> u64 {
        if rto * 2 > MAX_RTO_MS {
            MAX_RTO_MS
        } else {
            (rto * 2) as u64
        }
    }

    /// The bytes that a timeout sends again: the head of the retransmission
    /// buffer, one segment at most. They start at `snd_una`.
    pub open spec fn resend(self) -> Seq<u8> {
        self.unacked.take(least(self.unacked.len(), self.segment_cap()) as int)
    }

    /// What a timeout hands back to be sent: nothing when nothing is in
    /// flight, else `resend`.
    pub open spec fn resent(self) -> Seq<u8> {
        if self.snd_una == self.snd_nxt {
            Seq::empty()
        } else {
            self.resend()
        }
    }

    /// The connection after a retransmission timeout. With nothing in flight
    /// it is unchanged. Once `MAX_RETRIES` timeouts have passed in a row it is
    /// closed and the application sees the end of its stream. Else the timeout
    /// backs off, the count goes up, and the congestion controller is told.
    pub open spec fn after_timeout(self) -> ConnModel {
        if self.snd_una == self.snd_nxt {
            self
        } else if self.exhausted() {
            ConnModel { state: State::Closed, rx_eof: true, ..self }
        } else {
            ConnModel {
                retries: (self.retries + 1) as u32,
                rto: Self::backed_off(self.rto),
                cc: self.cc.after_timeout(self.unacked.len() as usize),
                ..self
            }
        }
    }

    /// Milliseconds since the last activity; zero if the clock reads earlier.
    pub open spec fn idle(self, now: u64) -> nat {
        if now >= self.last_activity {
            (now - self.last_activity) as nat
        } else {
            0
        }
    }

    /// Whether the retransmission deadline has passed with sequence space in
    /// flight.
    pub open spec fn retransmit_due(self, now: u64) -> bool {
        retransmits(self.state) && self.snd_una != self.snd_nxt && self.idle(now) >= self.rto
    }

    /// Whether the table may drop the connection: it is closed, or it has sat
    /// in `TimeWait` or in an unanswered handshake for `TIME_WAIT_MS`.
    pub open spec fn expired(self, now: u64) -> bool {
        self.state == State::Closed || ((self.state == State::TimeWait || self.state
            == State::SynSent || self.state == State::SynReceived) && self.idle(now)
            >= TIME_WAIT_MS)
    }
}

/// A segment leaves the retransmission buffer matched to the counters.
pub proof fn lemma_segment_keeps_wf(c: ConnModel, s: Segment)
    requires
        c.wf(),
    ensures
        c.after_segment(s).0.wf(),
        c.after_segment(s).0.id == c.id,
{
    lemma_ack_keeps_flight(c, s);
}

/// An acknowledgment releases as many buffered bytes as it moves `snd_una`,
/// but for the one sequence number of a FIN.
proof fn lemma_ack_keeps_flight(c: ConnModel, s: Segment)
    requires
        c.wf(),
    ensures
        c.after_ack(s).unacked.len() <= c.unacked.len(),
        c.after_ack(s).snd_nxt == c.snd_nxt,
        c.after_ack(s).state == c.state,
        sends_data(c.state) ==> c.after_ack(s).unacked.len() == c.after_ack(s).flight(),
        fin_in_flight(c.state) ==> (c.after_ack(s).unacked.len() + 1 == c.after_ack(s).flight()
            || (c.after_ack(s).unacked.len() == 0 && c.after_ack(s).snd_una == c.snd_nxt)),
        fin_in_flight(c.state) && has_flag(s.flags, FLAG_ACK) && s.ack == c.snd_nxt ==> {
            c.after_ack(s).unacked.len() == 0 && c.after_ack(s).snd_una == c.snd_nxt
        },
        fin_in_flight(c.state) && !(has_flag(s.flags, FLAG_ACK) && s.ack == c.snd_nxt)
            ==> c.after_ack(s).unacked.len() + 1 == c.after_ack(s).flight(),
{
    if c.ack_is_new(s) {
        let acked = seq_diff(s.ack, c.snd_una);
        let flight = c.flight();
        assert(seq_diff(c.snd_nxt, s.ack) == flight - acked);
        if s.ack == c.snd_nxt {
            assert(acked == flight);
        } else {
            assert(acked < flight);
        }
    } else {
        if fin_in_flight(c.state) && has_flag(s.flags, FLAG_ACK) && s.ack == c.snd_nxt {
            assert(seq_diff(s.ack, c.snd_una) == c.flight());
        }
    }
}

/// Sending the next segment leaves the retransmission buffer matched to the
/// counters.
pub proof fn lemma_poll_send_keeps_wf(c: ConnModel)
    requires
        c.wf(),
    ensures
        c.after_poll_send().wf(),
        c.after_poll_send().id == c.id,
{
    let n = c.sendable();
    if n > 0 {
        assert(c.unacked.len() + n <= c.send_window());
        assert(c.send_window() <= 65_535);
    } else {
        assert(c.after_poll_send().unacked =~= c.unacked);
    }
}

/// A local close leaves the retransmission buffer matched to the counters.
pub proof fn lemma_close_keeps_wf(c: ConnModel)
    requires
        c.wf(),
    ensures
        c.after_close().wf(),
        c.after_close().id == c.id,
{
}

/// A retransmission timeout keeps every buffered byte and leaves the buffer
/// matched to the counters.
pub proof fn lemma_timeout_keeps_wf(c: ConnModel)
    requires
        c.wf(),
    ensures
        c.after_timeout().wf(),
        c.after_timeout().id == c.id,
        c.after_timeout().unacked == c.unacked,
        c.after_timeout().snd_una == c.snd_una,
        c.after_timeout().snd_nxt == c.snd_nxt,
{
}

/// Sequence arithmetic: payload taken in by an established connection moves
/// `rcv_nxt` to the segment's sequence number plus the payload's length,
/// modulo 2^32.
pub proof fn lemma_rcv_nxt_follows_payload(c: ConnModel, s: Segment)
    requires
        c.state == State::Established,
        !has_flag(s.flags, FLAG_FIN),
        s.payload.len() > 0,
    ensures
        c.after_segment(s).0.rcv_nxt == (s.seq + s.payload.len()) % 0x1_0000_0000,
        c.after_segment(s).0.rx_buf == c.rx_buf + s.payload,
        c.after_segment(s).1 == RxAction::DeliverAndAck,
{
}

/// Handshake completion: a SYN with an acknowledgment of `iss + 1` moves a
/// connection from `SynSent` to `Established`, sets `rcv_nxt` behind the
/// peer's sequence number, and owes an acknowledgment.
pub proof fn lemma_handshake_completes(c: ConnModel, s: Segment)
    requires
        c.state == State::SynSent,
        has_flag(s.flags, FLAG_SYN),
        has_flag(s.flags, FLAG_ACK),
        s.ack == seq_add(c.iss, 1),
    ensures
        c.after_segment(s).0.state == State::Established,
        c.after_segment(s).0.rcv_nxt == seq_add(s.seq, 1),
        c.after_segment(s).0.snd_una == s.ack,
        c.after_segment(s).0.snd_nxt == s.ack,
        c.after_segment(s).1 == RxAction::SendAck,
{
}

/// Retransmission: a timeout with sequence space in flight, short of the
/// limit, sends the head of the buffer again, keeps the buffer, never
/// shortens the timeout and lengthens it below the cap, and sets the
/// congestion window to one segment under a threshold of half the flight, at
/// least two segments.
pub proof fn lemma_timeout_backs_off(c: ConnModel)
    requires
        c.snd_una != c.snd_nxt,
        !c.exhausted(),
    ensures
        c.after_timeout().unacked == c.unacked,
        c.resend() == c.unacked.take(c.resend().len() as int),
        c.after_timeout().retries == c.retries + 1,
        c.rto <= MAX_RTO_MS ==> c.after_timeout().rto >= c.rto,
        0 < c.rto < MAX_RTO_MS ==> c.after_timeout().rto > c.rto,
        c.after_timeout().rto <= MAX_RTO_MS,
        c.after_timeout().cc.cwnd == MSS,
        c.after_timeout().cc.ssthresh >= 2 * MSS,
        c.after_timeout().cc.ssthresh == 2 * MSS || c.after_timeout().cc.ssthresh == (
        c.unacked.len() as usize) / 2,
{
}

/// One connection, owned by the table of the engine.
pub struct Connection {
    pub id: Quad,
    pub state: State,
    /// The initial send sequence number.
    pub iss: u32,
    /// The oldest unacknowledged sequence number.
    pub snd_una: u32,
    /// The next sequence number to send.
    pub snd_nxt: u32,
    /// The next sequence number expected from the peer.
    pub rcv_nxt: u32,
    pub cc: Reno,
    /// The window that the peer last advertised.
    pub peer_window: u16,
    /// The most payload bytes that one segment carries.
    pub mss: usize,
    /// The retransmission timeout, in milliseconds.
    pub rto: u64,
    /// The clock reading at the last activity, in milliseconds.
    pub last_activity: u64,
    /// Timeouts since the last new acknowledgment.
    pub retries: u32,
    /// Sent and not yet acknowledged, oldest first.
    pub unacked: Vec<u8>,
    /// Accepted from the application and not yet sent.
    pub tx_queue: Vec<u8>,
    /// Received in order and not yet taken by the application.
    pub rx_buf: Vec<u8>,
    /// Whether the peer's stream has ended.
    pub rx_eof: bool,
}

impl View for Connection {
    type V = ConnModel;

    open spec fn view(&self) -> ConnModel {
        ConnModel {
            id: self.id,
            state: self.state,
            iss: self.iss,
            snd_una: self.snd_una,
            snd_nxt: self.snd_nxt,
            rcv_nxt: self.rcv_nxt,
            cc: self.cc,
            peer_window: self.peer_window,
            mss: self.mss,
            rto: self.rto,
            last_activity: self.last_activity,
            retries: self.retries,
            unacked: self.unacked@,
            tx_queue: self.tx_queue@,
            rx_buf: self.rx_buf@,
            rx_eof: self.rx_eof,
        }
    }
}

/// Whether `flag` is set in `flags`.
pub fn flag_set(flags: u16, flag: u16) -> (r: bool)
    ensures
        r == has_flag(flags, flag),
{
    flags & flag != 0
}

/// `a` advanced by `n`, wrapping at 2^32.
pub fn seq_plus(a: u32, n: u32) -> (r: u32)
    ensures
        r == seq_add(a, n as nat),
{
    a.wrapping_add(n)
}

/// How far `a` lies ahead of `b`, wrapping at 2^32.
pub fn seq_minus(a: u32, b: u32) -> (r: u32)
    ensures
        r == seq_diff(a, b),
{
    a.wrapping_sub(b)
}

/// A fresh connection as a value.
pub open spec fn fresh(id: Quad, state: State, iss: u32, now: u64) -> ConnModel {
    ConnModel {
        id,
        state,
        iss,
        snd_una: iss,
        snd_nxt: iss,
        rcv_nxt: 0,
        cc: Reno { cwnd: MSS, ssthresh: crate::tcp::congestion::INITIAL_SSTHRESH },
        peer_window: DEFAULT_WINDOW,
        mss: MSS,
        rto: INITIAL_RTO_MS,
        last_activity: now,
        retries: 0,
        unacked: Seq::empty(),
        tx_queue: Seq::empty(),
        rx_buf: Seq::empty(),
        rx_eof: false,
    }
}

impl Connection {
    /// A connection in `state` whose send counters stand at `iss`, with empty
    /// buffers, a congestion window of one segment, and `now` as its last
    /// activity.
    pub fn new(id: Quad, state: State, iss: u32, now: u64) -> (c: Connection)
        ensures
            c@ == fresh(id, state, iss, now),
            !fin_in_flight(state) ==> c@.wf(),
    {
        Connection {
            id,
            state,
            iss,
            snd_una: iss,
            snd_nxt: iss,
            rcv_nxt: 0,
            cc: Reno::default(),
            peer_window: DEFAULT_WINDOW,
            mss: MSS,
            rto: INITIAL_RTO_MS,
            last_activity: now,
            retries: 0,
            unacked: Vec::new(),
            tx_queue: Vec::new(),
            rx_buf: Vec::new(),
            rx_eof: false,
        }
    }

    /// The most payload bytes of one segment.
    pub fn segment_cap(&self) -> (cap: usize)
        ensures
            cap == self@.segment_cap(),
            cap <= MAX_PAYLOAD,
    {
        if self.mss < MAX_PAYLOAD {
            self.mss
        } else {
            MAX_PAYLOAD
        }
    }

    /// Takes in the acknowledgment field of a segment.
    fn take_ack(&mut self, tv: &TcpView<'_>)
        ensures
            final(self)@ == old(self)@.after_ack(tv@),
    {
        if !flag_set(tv.flags, FLAG_ACK) {
            return ;
        }
        let acked: u32 = seq_minus(tv.ack, self.snd_una);
        let flight: u32 = seq_minus(self.snd_nxt, self.snd_una);
        if 0 < acked && acked <= flight {
            let k: usize = if (acked as usize) < self.unacked.len() {
                acked as usize
            } else {
                self.unacked.len()
            };
            let rest = self.unacked.split_off(k);
            self.unacked = rest;
            self.snd_una = tv.ack;
            self.cc.on_ack();
            self.peer_window = tv.window;
            self.retries = 0;
            self.rto = INITIAL_RTO_MS;
            assert(self.unacked@ =~= old(self)@.unacked.skip(k as int));
        } else if tv.ack == self.snd_una {
            self.peer_window = tv.window;
        }
    }

    /// Takes in the peer's FIN and moves to `state`.
    fn take_fin(&mut self, tv: &TcpView<'_>, state: State)
        ensures
            final(self)@ == old(self)@.after_fin(tv@, state),
    {
        self.state = state;
        self.rcv_nxt = seq_plus(tv.seq, 1);
        self.rx_eof = true;
    }

    /// Applies a parsed segment: the transition of the state machine, the
    /// bookkeeping of acknowledgments, and the delivery of payload.
    pub fn apply_segment(&mut self, tv: &TcpView<'_>) -> (action: RxAction)
        ensures
            final(self)@ == old(self)@.after_segment(tv@).0,
            action == old(self)@.after_segment(tv@).1,
            old(self)@.wf() ==> final(self)@.wf(),
    {
        proof {
            if old(self)@.wf() {
                lemma_segment_keeps_wf(old(self)@, tv@);
            }
        }
        match self.state {
            State::Listen => {
                if flag_set(tv.flags, FLAG_SYN) && !flag_set(tv.flags, FLAG_ACK) {
                    self.rcv_nxt = seq_plus(tv.seq, 1);
                    self.peer_window = tv.window;
                    self.state = State::SynReceived;
                    return RxAction::SendSynAck;
                }
                RxAction::Nothing
            },
            State::SynSent => {
                if flag_set(tv.flags, FLAG_SYN) && flag_set(tv.flags, FLAG_ACK) && tv.ack
                    == seq_plus(self.iss, 1) {
                    self.rcv_nxt = seq_plus(tv.seq, 1);
                    self.snd_una = tv.ack;
                    self.snd_nxt = tv.ack;
                    self.peer_window = tv.window;
                    self.unacked = Vec::new();
                    self.state = State::Established;
                    return RxAction::SendAck;
                }
                RxAction::Nothing
            },
            State::SynReceived => {
                if flag_set(tv.flags, FLAG_ACK) && tv.ack == seq_plus(self.iss, 1) {
                    self.snd_una = tv.ack;
                    self.snd_nxt = tv.ack;
                    self.peer_window = tv.window;
                    self.unacked = Vec::new();
                    self.state = State::Established;
                }
                RxAction::Nothing
            },
            State::Established => {
                self.take_ack(tv);
                if flag_set(tv.flags, FLAG_FIN) {
                    self.take_fin(tv, State::CloseWait);
                    return RxAction::SendAck;
                }
                if tv.payload.len() > 0 {
                    let mut chunk = slice_to_vec(tv.payload);
                    self.rx_buf.append(&mut chunk);
                    let len: u32 = ((tv.payload.len() as u64) % 0x1_0000_0000) as u32;
                    self.rcv_nxt = seq_plus(tv.seq, len);
                    return RxAction::DeliverAndAck;
                }
                RxAction::Nothing
            },
            State::CloseWait => {
                self.take_ack(tv);
                RxAction::Nothing
            },
            State::FinWait1 => {
                let fin_acked: bool = flag_set(tv.flags, FLAG_ACK) && tv.ack == self.snd_nxt;
                self.take_ack(tv);
                if flag_set(tv.flags, FLAG_FIN) {
                    self.take_fin(tv, State::TimeWait);
                    return RxAction::SendAck;
                }
                if fin_acked {
                    self.state = State::FinWait2;
                }
                RxAction::Nothing
            },
            State::FinWait2 => {
                if flag_set(tv.flags, FLAG_FIN) {
                    self.take_fin(tv, State::TimeWait);
                    return RxAction::SendAck;
                }
                RxAction::Nothing
            },
            State::LastAck => {
                let fin_acked: bool = flag_set(tv.flags, FLAG_ACK) && tv.ack == self.snd_nxt;
                self.take_ack(tv);
                if fin_acked {
                    self.state = State::Closed;
                }
                RxAction::Nothing
            },
            _ => RxAction::Nothing,
        }
    }

    /// Takes in one inbound TCP segment, without its IP header. A segment
    /// that does not parse is refused with `Malformed` and changes nothing;
    /// any other is applied as `after_segment` says.
    pub fn on_segment(&mut self, seg: &[u8]) -> (r: Result<RxAction, UtcpError>)
        ensures
            seg@.len() < 20 ==> r == Err::<RxAction, UtcpError>(UtcpError::Malformed)
                && final(self)@ == old(self)@,
            tcp_parse(seg@) is None ==> r == Err::<RxAction, UtcpError>(UtcpError::Malformed)
                && final(self)@ == old(self)@,
            tcp_parse(seg@) matches Some(s) ==> r == Ok::<RxAction, UtcpError>(
                old(self)@.after_segment(s).1,
            ) && final(self)@ == old(self)@.after_segment(s).0,
            tcp_parse(seg@) matches Some(s) ==> (old(self)@.state == State::Established
                && !has_flag(s.flags, FLAG_FIN) && s.payload.len() > 0 ==> final(self)@.rcv_nxt
                == (s.seq + s.payload.len()) % 0x1_0000_0000),
            old(self)@.wf() ==> final(self)@.wf(),
    {
        match parse(seg) {
            None => Err(UtcpError::Malformed),
            Some(tv) => Ok(self.apply_segment(&tv)),
        }
    }

    /// Queues bytes from the application for sending.
    pub fn enqueue(&mut self, data: &[u8])
        ensures
            final(self)@ == (ConnModel { tx_queue: old(self)@.tx_queue + data@, ..old(self)@ }),
    {
        let mut chunk = slice_to_vec(data);
        self.tx_queue.append(&mut chunk);
    }

    /// Takes the payload of the next segment off the queue, as much as the
    /// congestion window, the peer's window and the segment size allow, keeps
    /// it for retransmission and advances `snd_nxt`. Returns `None` when the
    /// queue is empty, the window is used up, or the state sends no data.
    pub fn poll_send(&mut self) -> (r: Result<Option<Vec<u8>>, UtcpError>)
        ensures
            r is Ok,
            r->Ok_0 is Some <==> old(self)@.sendable() > 0,
            r->Ok_0 matches Some(v) ==> v@ == old(self)@.tx_queue.take(
                old(self)@.sendable() as int,
            ) && 0 < v@.len() <= MAX_PAYLOAD,
            final(self)@ == old(self)@.after_poll_send(),
            old(self)@.wf() ==> final(self)@.wf(),
    {
        proof {
            if old(self)@.wf() {
                lemma_poll_send_keeps_wf(old(self)@);
            }
        }
        let ghost before = self@;
        let sends: bool = match self.state {
            State::Established => true,
            State::CloseWait => true,
            _ => false,
        };
        let window: usize = if self.cc.cwnd < self.peer_window as usize {
            self.cc.cwnd
        } else {
            self.peer_window as usize
        };
        if !sends || self.unacked.len() >= window {
            assert(before.sendable() == 0);
            assert(self@ =~= before.after_poll_send());
            return Ok(None);
        }
        let room: usize = window - self.unacked.len();
        let mut n: usize = if room < self.tx_queue.len() {
            room
        } else {
            self.tx_queue.len()
        };
        let cap: usize = self.segment_cap();
        if cap < n {
            n = cap;
        }
        assert(n == before.sendable());
        if n == 0 {
            assert(self@ =~= before.after_poll_send());
            return Ok(None);
        }
        let rest = self.tx_queue.split_off(n);
        let mut chunk = slice_to_vec(self.tx_queue.as_slice());
        self.tx_queue = rest;
        let out = slice_to_vec(chunk.as_slice());
        self.unacked.append(&mut chunk);
        self.snd_nxt = seq_plus(self.snd_nxt, n as u32);
        assert(self@ =~= before.after_poll_send());
        Ok(Some(out))
    }

    /// Closes the sending side. From `Established` and `CloseWait` a FIN is
    /// owed to the peer and `true` is returned; elsewhere nothing changes.
    pub fn close(&mut self) -> (fin: bool)
        ensures
            fin == old(self)@.closes(),
            final(self)@ == old(self)@.after_close(),
            old(self)@.wf() ==> final(self)@.wf(),
    {
        proof {
            if old(self)@.wf() {
                lemma_close_keeps_wf(old(self)@);
            }
        }
        match self.state {
            State::Established => {
                self.state = State::FinWait1;
            },
            State::CloseWait => {
                self.state = State::LastAck;
            },
            _ => {
                return false;
            },
        }
        self.snd_nxt = seq_plus(self.snd_nxt, 1);
        self.tx_queue = Vec::new();
        true
    }

    /// Called when the retransmission deadline has passed. Returns the bytes
    /// to send again under the sequence number `snd_una`, which stay buffered,
    /// or `ConnReset` once the connection has timed out `MAX_RETRIES` times
    /// in a row.
    pub fn on_retransmit_timeout(&mut self) -> (r: Result<Vec<u8>, UtcpError>)
        ensures
            final(self)@ == old(self)@.after_timeout(),
            r is Err <==> old(self)@.snd_una != old(self)@.snd_nxt && old(self)@.exhausted(),
            r matches Err(e) ==> e == UtcpError::ConnReset,
            r matches Ok(v) ==> v@.len() <= MAX_PAYLOAD && v@ == old(self)@.resent(),
            old(self)@.snd_una != old(self)@.snd_nxt && !old(self)@.exhausted() ==> {
                &&& final(self)@.cc.cwnd == MSS
                &&& final(self)@.cc.ssthresh >= 2 * MSS
                &&& final(self)@.rto >= old(self)@.rto || final(self)@.rto == MAX_RTO_MS
                &&& 0 < old(self)@.rto < MAX_RTO_MS ==> final(self)@.rto > old(self)@.rto
            },
            old(self)@.wf() ==> final(self)@.wf(),
    {
        proof {
            if old(self)@.wf() {
                lemma_timeout_keeps_wf(old(self)@);
            }
        }
        if self.snd_una == self.snd_nxt {
            return Ok(Vec::new());
        }
        if self.retries >= MAX_RETRIES {
            self.state = State::Closed;
            self.rx_eof = true;
            return Err(UtcpError::ConnReset);
        }
        self.retries = self.retries + 1;
        self.rto = if self.rto > MAX_RTO_MS / 2 {
            MAX_RTO_MS
        } else {
            self.rto * 2
        };
        self.cc.on_timeout(self.unacked.len());
        let cap: usize = self.segment_cap();
        let n: usize = if self.unacked.len() < cap {
            self.unacked.len()
        } else {
            cap
        };
        let out = slice_to_vec(vstd::slice::slice_subrange(self.unacked.as_slice(), 0, n));
        Ok(out)
    }

    /// Hands the received bytes to the application and empties the buffer.
    pub fn take_received(&mut self) -> (data: Vec<u8>)
        ensures
            data@ == old(self)@.rx_buf,
            final(self)@ == (ConnModel { rx_buf: Seq::empty(), ..old(self)@ }),
    {
        let mut data: Vec<u8> = Vec::new();
        data.append(&mut self.rx_buf);
        data
    }

    /// Records activity at `now`: the deadlines count from here.
    pub fn touch(&mut self, now: u64)
        ensures
            final(self)@ == (ConnModel { last_activity: now, ..old(self)@ }),
    {
        self.last_activity = now;
    }

    /// Milliseconds since the last activity.
    fn idle(&self, now: u64) -> (d: u64)
        ensures
            d == self@.idle(now),
    {
        if now >= self.last_activity {
            now - self.last_activity
        } else {
            0
        }
    }

    /// Whether the retransmission deadline has passed with sequence space in
    /// flight.
    pub fn retransmit_due(&self, now: u64) -> (due: bool)
        ensures
            due == self@.retransmit_due(now),
    {
        let keeps_timer: bool = match self.state {
            State::Established => true,
            State::CloseWait => true,
            State::FinWait1 => true,
            State::LastAck => true,
            _ => false,
        };
        keeps_timer && self.snd_una != self.snd_nxt && self.idle(now) >= self.rto
    }

    /// Whether the table may drop the connection.
    pub fn expired(&self, now: u64) -> (gone: bool)
        ensures
            gone == self@.expired(now),
    {
        match self.state {
            State::Closed => true,
            State::TimeWait => self.idle(now) >= TIME_WAIT_MS,
            State::SynSent => self.idle(now) >= TIME_WAIT_MS,
            State::SynReceived => self.idle(now) >= TIME_WAIT_MS,
            _ => false,
        }
    }
}

} // verus!
