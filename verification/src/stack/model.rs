//! The engine as a value, and what each event makes of it.

use crate::error::UtcpError;
use crate::stack::{Command, StackConfig, ISS_STEP, PROTO_TCP};
use crate::tcp::congestion::MSS;
use crate::tcp::conn::{
    fin_in_flight, fresh, has_flag, seq_add, ConnModel, Quad, RxAction, State, DEFAULT_WINDOW,
};
use crate::wire::ipv4::{
    addr_at, ipv4_accepts, ipv4_checksum_valid, ipv4_dst, ipv4_frame, ipv4_payload, ipv4_proto,
    ipv4_src, Ipv4Addr, Ipv4Header,
};
use crate::wire::tcp::{
    plain_header, tcp_checksum_valid, tcp_parse, tcp_segment, Segment, FLAG_ACK, FLAG_FIN,
    FLAG_PSH, FLAG_SYN,
};
use vstd::prelude::*;

verus! {

/// A listener as a value.
pub struct ListenerModel {
    pub port: u16,
    pub backlog: Seq<Quad>,
}

/// An engine as a value.
#[verifier::ext_equal]
pub struct EngineModel {
    pub cfg: StackConfig,
    pub conns: Seq<ConnModel>,
    pub listeners: Seq<ListenerModel>,
    pub next_iss: u32,
}

/// What an event hands back: a frame to transmit, nothing, or a failure.
pub type Outcome = Result<Option<Seq<u8>>, UtcpError>;

/// The payload bytes of one segment on a device of this MTU: a full segment
/// where 40 header bytes leave room for it, else what is left, at least one.
pub open spec fn segment_limit(mtu: usize) -> usize {
    if mtu >= 40 + MSS {
        MSS
    } else if mtu > 40 {
        (mtu - 40) as usize
    } else {
        1
    }
}

/// The index of the first connection at or after `from` whose key is `id`.
pub open spec fn first_match(conns: Seq<ConnModel>, id: Quad, from: nat) -> Option<int>
    decreases conns.len() - from,
{
    if from >= conns.len() {
        None
    } else if conns[from as int].id == id {
        Some(from as int)
    } else {
        first_match(conns, id, from + 1)
    }
}

/// The index of the first listener at or after `from` on `port`.
pub open spec fn first_listener(listeners: Seq<ListenerModel>, port: u16, from: nat) -> Option<
    int,
>
    decreases listeners.len() - from,
{
    if from >= listeners.len() {
        None
    } else if listeners[from as int].port == port {
        Some(from as int)
    } else {
        first_listener(listeners, port, from + 1)
    }
}

/// The frame that carries one segment of connection `id` to its peer: an
/// IPv4 header from the local to the remote address with the configured
/// identification and time to live, around a TCP header of five words that
/// advertises `DEFAULT_WINDOW`.
pub open spec fn segment_frame(
    cfg: StackConfig,
    id: Quad,
    seq: u32,
    ack: u32,
    flags: u16,
    payload: Seq<u8>,
) -> Seq<u8> {
    ipv4_frame(
        Ipv4Header {
            src: Ipv4Addr(id.src_ip),
            dst: Ipv4Addr(id.dst_ip),
            proto: PROTO_TCP,
            ident: cfg.ident_seed,
            ttl: cfg.ttl,
        },
        tcp_segment(
            plain_header(id.src_port, id.dst_port, seq, ack, flags, DEFAULT_WINDOW),
            payload,
            id.src_ip@,
            id.dst_ip@,
        ),
    )
}

/// The key under which the engine holds the connection of an inbound
/// segment: the frame's destination is the local end, its source the remote.
pub open spec fn route(frame: Seq<u8>, s: Segment) -> Quad {
    Quad {
        src_ip: addr_at(frame, 16),
        src_port: s.dst_port,
        dst_ip: addr_at(frame, 12),
        dst_port: s.src_port,
    }
}

/// The frame that answers a segment on connection `c`: none where nothing is
/// owed; a SYN with an acknowledgment under the initial sequence number; or
/// an acknowledgment under `snd_nxt`. Each acknowledges `rcv_nxt`.
pub open spec fn reply(cfg: StackConfig, c: ConnModel, action: RxAction) -> Option<Seq<u8>> {
    match action {
        RxAction::Nothing => None,
        RxAction::SendSynAck => Some(
            segment_frame(cfg, c.id, c.iss, c.rcv_nxt, FLAG_SYN | FLAG_ACK, Seq::empty()),
        ),
        _ => Some(segment_frame(cfg, c.id, c.snd_nxt, c.rcv_nxt, FLAG_ACK, Seq::empty())),
    }
}

/// The connection with its deadlines counting from `now`, if the segment
/// that led from `before` moved `snd_una` or the state; else as it is.
pub open spec fn refreshed(before: ConnModel, c: ConnModel, now: u64) -> ConnModel {
    if c.snd_una != before.snd_una || c.state != before.state {
        ConnModel { last_activity: now, ..c }
    } else {
        c
    }
}

/// The flags of a retransmission: ACK; PSH with payload; FIN where the
/// connection's FIN is in flight and the payload reaches the end of what is
/// buffered.
pub open spec fn resend_flags(c: ConnModel) -> u16 {
    let with_fin = fin_in_flight(c.state) && c.resend().len() == c.unacked.len();
    if c.resend().len() > 0 {
        if with_fin {
            FLAG_ACK | FLAG_PSH | FLAG_FIN
        } else {
            FLAG_ACK | FLAG_PSH
        }
    } else {
        if with_fin {
            FLAG_ACK | FLAG_FIN
        } else {
            FLAG_ACK
        }
    }
}

/// What a timer tick does to one connection.
pub enum Verdict {
    /// It stays, as given, and the frame goes out if there is one.
    Keep(ConnModel, Option<Seq<u8>>),
    /// It leaves the table: closed, or aged out.
    Expire,
    /// It leaves the table: given up after too many timeouts.
    Reset,
}

/// What a timer tick at `now` does to connection `c`. An expired connection
/// leaves. One whose retransmission is due leaves if it has used up its
/// timeouts, and else sends the head of its buffer again from `snd_una`. Any
/// other sends its next segment if the window allows.
pub open spec fn tick_conn(cfg: StackConfig, c: ConnModel, now: u64) -> Verdict {
    if c.expired(now) {
        Verdict::Expire
    } else if c.retransmit_due(now) {
        if c.exhausted() {
            Verdict::Reset
        } else {
            Verdict::Keep(
                ConnModel { last_activity: now, ..c.after_timeout() },
                Some(segment_frame(cfg, c.id, c.snd_una, c.rcv_nxt, resend_flags(c), c.resend())),
            )
        }
    } else if c.sendable() > 0 {
        Verdict::Keep(
            ConnModel { last_activity: now, ..c.after_poll_send() },
            Some(
                segment_frame(
                    cfg,
                    c.id,
                    c.snd_nxt,
                    c.rcv_nxt,
                    FLAG_ACK | FLAG_PSH,
                    c.tx_queue.take(c.sendable() as int),
                ),
            ),
        )
    } else {
        Verdict::Keep(c, None)
    }
}

/// What a timer tick leaves and hands back, as values.
#[verifier::ext_equal]
pub struct TickModel {
    /// The connections that stay, in table order.
    pub conns: Seq<ConnModel>,
    /// The frames to transmit, in table order.
    pub frames: Seq<Seq<u8>>,
    /// The keys of the connections given up.
    pub reset: Seq<Quad>,
    /// The keys of the connections that were closed or aged out.
    pub expired: Seq<Quad>,
}

/// The outcome of a tick on a table, extended by the tick on one more
/// connection.
pub open spec fn tick_push(t: TickModel, c: ConnModel, v: Verdict) -> TickModel {
    match v {
        Verdict::Keep(kept, Some(f)) => TickModel {
            conns: t.conns.push(kept),
            frames: t.frames.push(f),
            ..t
        },
        Verdict::Keep(kept, None) => TickModel { conns: t.conns.push(kept), ..t },
        Verdict::Expire => TickModel { expired: t.expired.push(c.id), ..t },
        Verdict::Reset => TickModel { reset: t.reset.push(c.id), ..t },
    }
}

/// What a timer tick at `now` does to a table: `tick_conn` on each
/// connection, in table order.
pub open spec fn tick_all(cfg: StackConfig, conns: Seq<ConnModel>, now: u64) -> TickModel
    decreases conns.len(),
{
    if conns.len() == 0 {
        TickModel {
            conns: Seq::empty(),
            frames: Seq::empty(),
            reset: Seq::empty(),
            expired: Seq::empty(),
        }
    } else {
        tick_push(
            tick_all(cfg, conns.drop_last(), now),
            conns.last(),
            tick_conn(cfg, conns.last(), now),
        )
    }
}

impl EngineModel {
    /// The table is well formed: no two connections share a key, no two
    /// listeners share a port, and every connection's retransmission buffer
    /// matches its counters.
    pub open spec fn wf(self) -> bool {
        &&& forall|i: int, j: int|
            0 <= i < j < self.conns.len() ==> (#[trigger] self.conns[i]).id != (
            #[trigger] self.conns[j]).id
        &&& forall|i: int| 0 <= i < self.conns.len() ==> (#[trigger] self.conns[i]).wf()
        &&& forall|i: int, j: int|
            0 <= i < j < self.listeners.len() ==> (#[trigger] self.listeners[i]).port != (
            #[trigger] self.listeners[j]).port
    }

    /// The table with the connection at `i` replaced.
    pub open spec fn with_conn(self, i: int, c: ConnModel) -> EngineModel {
        EngineModel { conns: self.conns.update(i, c), ..self }
    }

    /// The table without its first connection under `id`.
    pub open spec fn without(self, id: Quad) -> Seq<ConnModel> {
        match first_match(self.conns, id, 0) {
            Some(i) => self.conns.remove(i),
            None => self.conns,
        }
    }

    /// The connection that an active open creates.
    pub open spec fn opened(self, id: Quad, now: u64) -> ConnModel {
        ConnModel {
            mss: segment_limit(self.cfg.mtu),
            ..fresh(id, State::SynSent, self.next_iss, now)
        }
    }

    /// Connect: a connection under `id` in `SynSent` with a fresh initial
    /// sequence number takes the place of any other under that key, and a
    /// SYN that carries the number goes out.
    pub open spec fn after_connect(self, id: Quad, now: u64) -> (EngineModel, Outcome) {
        (
            EngineModel {
                conns: self.without(id).push(self.opened(id, now)),
                next_iss: seq_add(self.next_iss, ISS_STEP as nat),
                ..self
            },
            Ok(Some(segment_frame(self.cfg, id, self.next_iss, 0, FLAG_SYN, Seq::empty()))),
        )
    }

    /// Listen: the port is registered, once.
    pub open spec fn after_listen(self, port: u16) -> (EngineModel, Outcome) {
        if first_listener(self.listeners, port, 0) is Some {
            (self, Ok(None))
        } else {
            (
                EngineModel {
                    listeners: self.listeners.push(ListenerModel { port, backlog: Seq::empty() }),
                    ..self
                },
                Ok(None),
            )
        }
    }

    /// What sending the next segment of the connection at `i` does: when the
    /// window lets queued bytes go, they leave in a frame with ACK and PSH set
    /// whose sequence number is the connection's `snd_nxt` before, and the
    /// connection's deadlines count from `now`; else nothing changes.
    pub open spec fn after_flush(self, i: int, now: u64) -> (EngineModel, Outcome) {
        let c = self.conns[i];
        if c.sendable() > 0 {
            (
                self.with_conn(i, ConnModel { last_activity: now, ..c.after_poll_send() }),
                Ok(
                    Some(
                        segment_frame(
                            self.cfg,
                            c.id,
                            c.snd_nxt,
                            c.rcv_nxt,
                            FLAG_ACK | FLAG_PSH,
                            c.tx_queue.take(c.sendable() as int),
                        ),
                    ),
                ),
            )
        } else {
            (self, Ok(None))
        }
    }

    /// Send: an unknown key fails with `ConnNotFound`; else the bytes join
    /// the connection's queue and the next segment goes out if the window
    /// allows.
    pub open spec fn after_send(self, id: Quad, data: Seq<u8>, now: u64) -> (EngineModel, Outcome) {
        match first_match(self.conns, id, 0) {
            None => (self, Err(UtcpError::ConnNotFound)),
            Some(i) => {
                let c = self.conns[i];
                self.with_conn(i, ConnModel { tx_queue: c.tx_queue + data, ..c }).after_flush(
                    i,
                    now,
                )
            },
        }
    }

    /// Close: an unknown key fails with `ConnNotFound`; else the connection
    /// closes its sending side, and where that owes a FIN, a frame with FIN
    /// and ACK set goes out under the sequence number that the FIN takes.
    pub open spec fn after_close(self, id: Quad, now: u64) -> (EngineModel, Outcome) {
        match first_match(self.conns, id, 0) {
            None => (self, Err(UtcpError::ConnNotFound)),
            Some(i) => {
                let c = self.conns[i];
                if c.closes() {
                    (
                        self.with_conn(i, ConnModel { last_activity: now, ..c.after_close() }),
                        Ok(
                            Some(
                                segment_frame(
                                    self.cfg,
                                    c.id,
                                    c.snd_nxt,
                                    c.rcv_nxt,
                                    FLAG_FIN | FLAG_ACK,
                                    Seq::empty(),
                                ),
                            ),
                        ),
                    )
                } else {
                    (self, Ok(None))
                }
            },
        }
    }

    /// A command from an application.
    pub open spec fn after_cmd(self, cmd: Command, now: u64) -> (EngineModel, Outcome) {
        match cmd {
            Command::Connect(id) => self.after_connect(id, now),
            Command::Listen(port) => self.after_listen(port),
            Command::Send(id, data) => self.after_send(id, data@, now),
            Command::Close(id) => self.after_close(id, now),
        }
    }

    /// The listeners after `id` joined the backlog of the listener on its
    /// local port, if there is one.
    pub open spec fn queued_for_accept(self, id: Quad) -> Seq<ListenerModel> {
        match first_listener(self.listeners, id.src_port, 0) {
            Some(j) => self.listeners.update(
                j,
                ListenerModel {
                    backlog: self.listeners[j].backlog.push(id),
                    ..self.listeners[j]
                },
            ),
            None => self.listeners,
        }
    }

    /// A segment for the connection at `i`: the connection takes it in, its
    /// deadlines are refreshed, a passive open that it completes joins the
    /// accept queue, and the reply goes out.
    pub open spec fn after_inbound(self, i: int, s: Segment, now: u64) -> (EngineModel, Outcome) {
        let c = self.conns[i];
        let c1 = refreshed(c, c.after_segment(s).0, now);
        (
            EngineModel {
                conns: self.conns.update(i, c1),
                listeners: if c.state == State::SynReceived && c1.state == State::Established {
                    self.queued_for_accept(c.id)
                } else {
                    self.listeners
                },
                ..self
            },
            Ok(reply(self.cfg, c1, c.after_segment(s).1)),
        )
    }

    /// The listening connection that takes in the SYN of a passive open.
    pub open spec fn listening(self, id: Quad, now: u64) -> ConnModel {
        ConnModel {
            mss: segment_limit(self.cfg.mtu),
            ..fresh(id, State::Listen, self.next_iss, now)
        }
    }

    /// A segment for no connection: a SYN without ACK for a listening port
    /// creates a connection that takes it in, and the reply goes out; any
    /// other is dropped.
    pub open spec fn after_stray(self, id: Quad, s: Segment, now: u64) -> (EngineModel, Outcome) {
        if has_flag(s.flags, FLAG_SYN) && !has_flag(s.flags, FLAG_ACK) && first_listener(
            self.listeners,
            s.dst_port,
            0,
        ) is Some {
            let c = self.listening(id, now).after_segment(s);
            (
                EngineModel {
                    conns: self.conns.push(c.0),
                    next_iss: seq_add(self.next_iss, ISS_STEP as nat),
                    ..self
                },
                Ok(reply(self.cfg, c.0, c.1)),
            )
        } else {
            (self, Ok(None))
        }
    }

    /// An inbound frame. One that does not parse as IPv4, or whose TCP
    /// segment does not parse, fails with `Malformed`; one whose IPv4 header
    /// or TCP segment fails its checksum fails with `Checksum`; one of another
    /// protocol is dropped. None of these changes anything. Any other goes to
    /// the connection under its key, or to `after_stray`.
    pub open spec fn after_frame(self, frame: Seq<u8>, now: u64) -> (EngineModel, Outcome) {
        if !ipv4_accepts(frame) {
            (self, Err(UtcpError::Malformed))
        } else if !ipv4_checksum_valid(frame) {
            (self, Err(UtcpError::Checksum))
        } else if ipv4_proto(frame) != PROTO_TCP {
            (self, Ok(None))
        } else {
            match tcp_parse(ipv4_payload(frame)) {
                None => (self, Err(UtcpError::Malformed)),
                Some(s) => {
                    if !tcp_checksum_valid(ipv4_payload(frame), ipv4_src(frame), ipv4_dst(frame)) {
                        (self, Err(UtcpError::Checksum))
                    } else {
                        match first_match(self.conns, route(frame, s), 0) {
                            Some(i) => self.after_inbound(i, s, now),
                            None => self.after_stray(route(frame, s), s, now),
                        }
                    }
                },
            }
        }
    }

    /// A timer tick.
    pub open spec fn after_tick(self, now: u64) -> EngineModel {
        EngineModel { conns: tick_all(self.cfg, self.conns, now).conns, ..self }
    }

    /// Accept: the oldest connection in the backlog of the listener on
    /// `port` leaves it.
    pub open spec fn after_accept(self, port: u16) -> (EngineModel, Option<Quad>) {
        match first_listener(self.listeners, port, 0) {
            Some(j) => {
                if self.listeners[j].backlog.len() > 0 {
                    (
                        EngineModel {
                            listeners: self.listeners.update(
                                j,
                                ListenerModel {
                                    backlog: self.listeners[j].backlog.skip(1),
                                    ..self.listeners[j]
                                },
                            ),
                            ..self
                        },
                        Some(self.listeners[j].backlog[0]),
                    )
                } else {
                    (self, None)
                }
            },
            None => (self, None),
        }
    }
}

} // verus!
