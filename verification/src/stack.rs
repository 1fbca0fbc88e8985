//! The engine: the connection table, the listeners, and what each event
//! does to them. Frames, commands and clock readings come in; the frames to
//! transmit go out.

use crate::buffer::{as_slice, buf_bytes};
use crate::error::UtcpError;
use crate::stack::laws::{
    lemma_accept_keeps_wf, lemma_close_keeps_table_wf, lemma_connect_keeps_wf,
    lemma_frame_keeps_wf, lemma_listen_keeps_wf, lemma_send_keeps_wf, lemma_tick_keeps_wf,
};
use crate::stack::model::{
    first_listener, first_match, reply, resend_flags, segment_frame, segment_limit, tick_all,
    tick_conn, tick_push, EngineModel, ListenerModel, Outcome, Verdict,
};
use crate::tcp::congestion::MSS;
use crate::tcp::conn::{
    flag_set, seq_plus, ConnModel, Connection, Quad, RxAction, State, DEFAULT_WINDOW,
    MAX_PAYLOAD,
};
use crate::wire::ipv4::{parse_ipv4, verify_header_checksum, Ipv4Addr, Ipv4Header};
use crate::wire::tcp::{
    parse, verify_checksum, TcpHeader, TcpView, FLAG_ACK, FLAG_FIN, FLAG_PSH, FLAG_SYN,
};
use bytes::BytesMut;
use vstd::prelude::*;

pub mod laws;
pub mod model;

verus! {

/// The protocol number of TCP.
pub const PROTO_TCP: u8 = 6;

/// How far the initial sequence number moves on for each new connection.
pub const ISS_STEP: u32 = 64_000;

/// What an engine is set up with. It never changes.
#[derive(Clone, Copy, Debug)]
pub struct StackConfig {
    pub local_ip: [u8; 4],
    pub ttl: u8,
    pub ident_seed: u16,
    pub mtu: usize,
}

/// A listening port and the connections that completed a passive open on it
/// and wait to be accepted, oldest first.
pub struct Listener {
    pub port: u16,
    pub backlog: Vec<Quad>,
}

impl View for Listener {
    type V = ListenerModel;

    open spec fn view(&self) -> ListenerModel {
        ListenerModel { port: self.port, backlog: self.backlog@ }
    }
}

/// What an application asks of the engine.
pub enum Command {
    /// Open a connection actively.
    Connect(Quad),
    /// Accept connections on a port.
    Listen(u16),
    /// Send bytes on a connection.
    Send(Quad, Vec<u8>),
    /// Close the sending side of a connection.
    Close(Quad),
}

/// The protocol state of one local IP identity.
pub struct Engine {
    pub cfg: StackConfig,
    pub conns: Vec<Connection>,
    pub listeners: Vec<Listener>,
    /// The initial sequence number of the next connection.
    pub next_iss: u32,
}

impl View for Engine {
    type V = EngineModel;

    open spec fn view(&self) -> EngineModel {
        EngineModel {
            cfg: self.cfg,
            conns: self.conns@.map_values(|c: Connection| c@),
            listeners: self.listeners@.map_values(|l: Listener| l@),
            next_iss: self.next_iss,
        }
    }
}

/// The bytes of the frame that an event's result holds.
pub open spec fn sent(r: Result<Option<BytesMut>, UtcpError>) -> Outcome {
    match r {
        Ok(Some(f)) => Ok(Some(buf_bytes(f))),
        Ok(None) => Ok(None),
        Err(e) => Err(e),
    }
}

/// Builds the frame that carries one segment of connection `id`.
pub fn build_frame(cfg: &StackConfig, id: &Quad, seq: u32, ack: u32, flags: u16, payload: &[u8])
    -> (f: BytesMut)
    requires
        payload@.len() <= MAX_PAYLOAD,
    ensures
        buf_bytes(f) == segment_frame(*cfg, *id, seq, ack, flags, payload@),
{
    let tcp = TcpHeader::new(id.src_port, id.dst_port, seq, ack, flags, DEFAULT_WINDOW);
    let seg = tcp.encode(payload, id.src_ip, id.dst_ip);
    let ip = Ipv4Header {
        src: Ipv4Addr(id.src_ip),
        dst: Ipv4Addr(id.dst_ip),
        proto: PROTO_TCP,
        ident: cfg.ident_seed,
        ttl: cfg.ttl,
    };
    ip.encode(as_slice(&seg))
}

/// A tick on the first `k + 1` connections is the tick on the first `k`,
/// extended by the tick on the next.
proof fn lemma_tick_next(cfg: StackConfig, conns: Seq<ConnModel>, k: int, now: u64)
    requires
        0 <= k < conns.len(),
    ensures
        tick_all(cfg, conns.take(k + 1), now) == tick_push(
            tick_all(cfg, conns.take(k), now),
            conns[k],
            tick_conn(cfg, conns[k], now),
        ),
{
    assert(conns.take(k + 1).drop_last() =~= conns.take(k));
    assert(conns.take(k + 1).last() == conns[k]);
}

/// Replacing the first element behind a prefix extends the prefix.
proof fn lemma_replace_at_seam(done: Seq<ConnModel>, all: Seq<ConnModel>, k: int, c: ConnModel)
    requires
        0 <= k < all.len(),
    ensures
        (done + all.skip(k)).update(done.len() as int, c) == done.push(c) + all.skip(k + 1),
        (done + all.skip(k)).remove(done.len() as int) == done + all.skip(k + 1),
        (done + all.skip(k))[done.len() as int] == all[k],
{
    assert((done + all.skip(k)).update(done.len() as int, c) =~= done.push(c) + all.skip(k + 1));
    assert((done + all.skip(k)).remove(done.len() as int) =~= done + all.skip(k + 1));
}

/// What a timer tick did to one connection.
enum TickStep {
    Kept(Option<BytesMut>),
    Expired(Quad),
    Reset(Quad),
}

/// What a timer tick hands back.
pub struct TickReport {
    /// The frames to transmit.
    pub frames: Vec<BytesMut>,
    /// The keys of the connections given up after too many timeouts.
    pub reset: Vec<Quad>,
    /// The keys of the connections that were closed or aged out.
    pub expired: Vec<Quad>,
}

impl TickReport {
    /// The bytes of the frames to transmit.
    pub open spec fn frame_bytes(self) -> Seq<Seq<u8>> {
        self.frames@.map_values(|f: BytesMut| buf_bytes(f))
    }
}

/// The payload bytes of one segment on a device of this MTU.
pub fn mtu_segment_limit(mtu: usize) -> (n: usize)
    ensures
        n == segment_limit(mtu),
        1 <= n <= MSS,
{
    if mtu >= 40 + MSS {
        MSS
    } else if mtu > 40 {
        mtu - 40
    } else {
        1
    }
}

impl Engine {
    /// An engine with an empty table and no listeners, whose first connection
    /// will start at `iss_seed`.
    pub fn new(cfg: StackConfig, iss_seed: u32) -> (e: Engine)
        ensures
            e@ == (EngineModel {
                cfg,
                conns: Seq::empty(),
                listeners: Seq::empty(),
                next_iss: iss_seed,
            }),
            e@.wf(),
    {
        let e = Engine { cfg, conns: Vec::new(), listeners: Vec::new(), next_iss: iss_seed };
        assert(e@.conns =~= Seq::empty());
        assert(e@.listeners =~= Seq::empty());
        e
    }

    /// The index of the connection under `id`.
    pub fn find(&self, id: &Quad) -> (r: Option<usize>)
        ensures
            match r {
                Some(i) => first_match(self@.conns, *id, 0) == Some(i as int) && i
                    < self.conns.len(),
                None => first_match(self@.conns, *id, 0) is None,
            },
    {
        let mut i: usize = 0;
        while i < self.conns.len()
            invariant
                i <= self.conns.len(),
                self@.conns.len() == self.conns.len(),
                first_match(self@.conns, *id, 0) == first_match(self@.conns, *id, i as nat),
            decreases self.conns.len() - i,
        {
            if self.conns[i].id.same(id) {
                return Some(i);
            }
            i = i + 1;
        }
        None
    }

    /// The index of the listener on `port`.
    pub fn find_listener(&self, port: u16) -> (r: Option<usize>)
        ensures
            match r {
                Some(i) => first_listener(self@.listeners, port, 0) == Some(i as int) && i
                    < self.listeners.len(),
                None => first_listener(self@.listeners, port, 0) is None,
            },
    {
        let mut i: usize = 0;
        while i < self.listeners.len()
            invariant
                i <= self.listeners.len(),
                self@.listeners.len() == self.listeners.len(),
                first_listener(self@.listeners, port, 0) == first_listener(
                    self@.listeners,
                    port,
                    i as nat,
                ),
            decreases self.listeners.len() - i,
        {
            if self.listeners[i].port == port {
                return Some(i);
            }
            i = i + 1;
        }
        None
    }

    /// Builds the frame that answers a segment on the connection at `i`.
    fn reply_frame(&self, i: usize, action: RxAction) -> (r: Option<BytesMut>)
        requires
            i < self.conns.len(),
        ensures
            match r {
                Some(f) => reply(self@.cfg, self@.conns[i as int], action) == Some(buf_bytes(f)),
                None => reply(self@.cfg, self@.conns[i as int], action) is None,
            },
    {
        let c = &self.conns[i];
        let empty: Vec<u8> = Vec::new();
        match action {
            RxAction::Nothing => None,
            RxAction::SendSynAck => Some(
                build_frame(
                    &self.cfg,
                    &c.id,
                    c.iss,
                    c.rcv_nxt,
                    FLAG_SYN | FLAG_ACK,
                    empty.as_slice(),
                ),
            ),
            _ => Some(
                build_frame(&self.cfg, &c.id, c.snd_nxt, c.rcv_nxt, FLAG_ACK, empty.as_slice()),
            ),
        }
    }

    /// Puts `id` into the backlog of the listener on its local port.
    fn queue_for_accept(&mut self, id: Quad)
        ensures
            final(self)@ == (EngineModel {
                listeners: old(self)@.queued_for_accept(id),
                ..old(self)@
            }),
    {
        match self.find_listener(id.src_port) {
            Some(j) => {
                self.listeners[j].backlog.push(id);
                assert(self@.listeners =~= old(self)@.queued_for_accept(id));
            },
            None => {},
        }
    }

    /// Hands a parsed segment to the connection at `i`.
    fn inbound(&mut self, i: usize, tv: &TcpView<'_>, now: u64) -> (r: Result<
        Option<BytesMut>,
        UtcpError,
    >)
        requires
            i < old(self).conns.len(),
        ensures
            final(self)@ == old(self)@.after_inbound(i as int, tv@, now).0,
            sent(r) == old(self)@.after_inbound(i as int, tv@, now).1,
    {
        let state_before: State = self.conns[i].state;
        let una_before: u32 = self.conns[i].snd_una;
        let id: Quad = self.conns[i].id;
        let action = self.conns[i].apply_segment(tv);
        if self.conns[i].snd_una != una_before || self.conns[i].state != state_before {
            self.conns[i].touch(now);
        }
        let completed: bool = state_before == State::SynReceived && self.conns[i].state
            == State::Established;
        assert(self@.conns =~= old(self)@.after_inbound(i as int, tv@, now).0.conns);
        if completed {
            self.queue_for_accept(id);
        }
        Ok(self.reply_frame(i, action))
    }

    /// Handles a parsed segment that belongs to no connection.
    fn stray(&mut self, id: Quad, tv: &TcpView<'_>, now: u64) -> (r: Result<
        Option<BytesMut>,
        UtcpError,
    >)
        ensures
            final(self)@ == old(self)@.after_stray(id, tv@, now).0,
            sent(r) == old(self)@.after_stray(id, tv@, now).1,
    {
        if flag_set(tv.flags, FLAG_SYN) && !flag_set(tv.flags, FLAG_ACK) && self.find_listener(
            tv.dst_port,
        ).is_some() {
            let mut conn = Connection::new(id, State::Listen, self.next_iss, now);
            conn.mss = mtu_segment_limit(self.cfg.mtu);
            let action = conn.apply_segment(tv);
            self.conns.push(conn);
            self.next_iss = seq_plus(self.next_iss, ISS_STEP);
            assert(self@.conns =~= old(self)@.after_stray(id, tv@, now).0.conns);
            let i: usize = self.conns.len() - 1;
            Ok(self.reply_frame(i, action))
        } else {
            Ok(None)
        }
    }

    /// Takes in one inbound frame from the device and hands back the frame
    /// that answers it, if one is owed.
    pub fn on_frame(&mut self, frame: &[u8], now: u64) -> (r: Result<Option<BytesMut>, UtcpError>)
        ensures
            final(self)@ == old(self)@.after_frame(frame@, now).0,
            sent(r) == old(self)@.after_frame(frame@, now).1,
            old(self)@.wf() ==> final(self)@.wf(),
    {
        proof {
            if old(self)@.wf() {
                lemma_frame_keeps_wf(old(self)@, frame@, now);
            }
        }
        let ip = match parse_ipv4(frame) {
            None => {
                return Err(UtcpError::Malformed);
            },
            Some(v) => v,
        };
        if !verify_header_checksum(frame) {
            return Err(UtcpError::Checksum);
        }
        if ip.proto != PROTO_TCP {
            return Ok(None);
        }
        let tv = match parse(ip.payload) {
            None => {
                return Err(UtcpError::Malformed);
            },
            Some(v) => v,
        };
        if !verify_checksum(ip.payload, ip.src, ip.dst) {
            return Err(UtcpError::Checksum);
        }
        let id = Quad {
            src_ip: ip.dst,
            src_port: tv.dst_port,
            dst_ip: ip.src,
            dst_port: tv.src_port,
        };
        match self.find(&id) {
            Some(i) => self.inbound(i, &tv, now),
            None => self.stray(id, &tv, now),
        }
    }

    /// Carries out one command and hands back the frame to transmit, if any.
    pub fn on_cmd(&mut self, cmd: Command, now: u64) -> (r: Result<Option<BytesMut>, UtcpError>)
        ensures
            final(self)@ == old(self)@.after_cmd(cmd, now).0,
            sent(r) == old(self)@.after_cmd(cmd, now).1,
            old(self)@.wf() ==> final(self)@.wf(),
    {
        match cmd {
            Command::Connect(id) => self.connect(id, now),
            Command::Listen(port) => self.listen(port),
            Command::Send(id, data) => self.send(id, data.as_slice(), now),
            Command::Close(id) => self.close(id, now),
        }
    }

    /// Takes the oldest connection that completed a passive open on `port`
    /// out of the accept queue.
    pub fn accept(&mut self, port: u16) -> (r: Option<Quad>)
        ensures
            final(self)@ == old(self)@.after_accept(port).0,
            r == old(self)@.after_accept(port).1,
            old(self)@.wf() ==> final(self)@.wf(),
    {
        proof {
            if old(self)@.wf() {
                lemma_accept_keeps_wf(old(self)@, port);
            }
        }
        match self.find_listener(port) {
            Some(j) => {
                if self.listeners[j].backlog.len() > 0 {
                    let id = self.listeners[j].backlog.remove(0);
                    assert(self@.listeners =~= old(self)@.after_accept(port).0.listeners);
                    Some(id)
                } else {
                    None
                }
            },
            None => None,
        }
    }

    /// Carries out a timer tick on the connection at `i`.
    fn tick_one(&mut self, i: usize, now: u64) -> (step: TickStep)
        requires
            i < old(self).conns.len(),
        ensures
            final(self)@.cfg == old(self)@.cfg,
            final(self)@.listeners == old(self)@.listeners,
            final(self)@.next_iss == old(self)@.next_iss,
            match step {
                TickStep::Kept(f) => {
                    &&& tick_conn(
                        old(self)@.cfg,
                        old(self)@.conns[i as int],
                        now,
                    ) matches Verdict::Keep(c, m)
                    &&& final(self)@.conns == old(self)@.conns.update(i as int, c)
                    &&& match f {
                        Some(b) => m == Some(buf_bytes(b)),
                        None => m is None,
                    }
                },
                TickStep::Expired(id) => {
                    &&& tick_conn(old(self)@.cfg, old(self)@.conns[i as int], now) is Expire
                    &&& final(self)@.conns == old(self)@.conns.remove(i as int)
                    &&& id == old(self)@.conns[i as int].id
                },
                TickStep::Reset(id) => {
                    &&& tick_conn(old(self)@.cfg, old(self)@.conns[i as int], now) is Reset
                    &&& final(self)@.conns == old(self)@.conns.remove(i as int)
                    &&& id == old(self)@.conns[i as int].id
                },
            },
    {
        let id: Quad = self.conns[i].id;
        if self.conns[i].expired(now) {
            let _ = self.conns.remove(i);
            assert(self@.conns =~= old(self)@.conns.remove(i as int));
            return TickStep::Expired(id);
        }
        if self.conns[i].retransmit_due(now) {
            let seq: u32 = self.conns[i].snd_una;
            let ack: u32 = self.conns[i].rcv_nxt;
            let cap: usize = self.conns[i].segment_cap();
            let buffered: usize = self.conns[i].unacked.len();
            let n: usize = if buffered < cap {
                buffered
            } else {
                cap
            };
            let with_fin: bool = match self.conns[i].state {
                State::FinWait1 => n == buffered,
                State::LastAck => n == buffered,
                _ => false,
            };
            let flags: u16 = if n > 0 {
                if with_fin {
                    FLAG_ACK | FLAG_PSH | FLAG_FIN
                } else {
                    FLAG_ACK | FLAG_PSH
                }
            } else {
                if with_fin {
                    FLAG_ACK | FLAG_FIN
                } else {
                    FLAG_ACK
                }
            };
            assert(flags == resend_flags(old(self)@.conns[i as int]));
            match self.conns[i].on_retransmit_timeout() {
                Err(_) => {
                    let _ = self.conns.remove(i);
                    assert(self@.conns =~= old(self)@.conns.remove(i as int));
                    return TickStep::Reset(id);
                },
                Ok(chunk) => {
                    self.conns[i].touch(now);
                    assert(self@.conns =~= old(self)@.conns.update(
                        i as int,
                        ConnModel {
                            last_activity: now,
                            ..old(self)@.conns[i as int].after_timeout()
                        },
                    ));
                    return TickStep::Kept(
                        Some(build_frame(&self.cfg, &id, seq, ack, flags, chunk.as_slice())),
                    );
                },
            }
        }
        match self.flush(i, now) {
            Ok(f) => {
                assert(self@.conns =~= old(self)@.after_flush(i as int, now).0.conns);
                TickStep::Kept(f)
            },
            Err(_) => TickStep::Kept(None),
        }
    }

    /// Carries out a timer tick: every connection is visited in table order.
    /// Closed and aged-out connections leave the table, due retransmissions
    /// are made or given up, and queued bytes that the windows allow go out.
    pub fn on_tick(&mut self, now: u64) -> (report: TickReport)
        ensures
            final(self)@ == old(self)@.after_tick(now),
            report.frame_bytes() == tick_all(old(self)@.cfg, old(self)@.conns, now).frames,
            report.reset@ == tick_all(old(self)@.cfg, old(self)@.conns, now).reset,
            report.expired@ == tick_all(old(self)@.cfg, old(self)@.conns, now).expired,
            old(self)@.wf() ==> final(self)@.wf(),
    {
        proof {
            if old(self)@.wf() {
                lemma_tick_keeps_wf(old(self)@, now);
            }
        }
        let ghost before = self@;
        let mut report = TickReport { frames: Vec::new(), reset: Vec::new(), expired: Vec::new() };
        let mut i: usize = 0;
        let ghost mut k: int = 0;
        assert(before.conns.take(0) =~= Seq::empty());
        assert(report.frame_bytes() =~= Seq::empty());
        assert(self@.conns =~= Seq::<ConnModel>::empty() + before.conns.skip(0));
        while i < self.conns.len()
            invariant
                0 <= k <= before.conns.len(),
                i == tick_all(before.cfg, before.conns.take(k), now).conns.len(),
                self@.conns == tick_all(before.cfg, before.conns.take(k), now).conns
                    + before.conns.skip(k),
                self@.conns.len() == self.conns.len(),
                self@.cfg == before.cfg,
                self@.listeners == before.listeners,
                self@.next_iss == before.next_iss,
                report.frame_bytes() == tick_all(before.cfg, before.conns.take(k), now).frames,
                report.reset@ == tick_all(before.cfg, before.conns.take(k), now).reset,
                report.expired@ == tick_all(before.cfg, before.conns.take(k), now).expired,
            decreases before.conns.len() - k,
        {
            let ghost t = tick_all(before.cfg, before.conns.take(k), now);
            let ghost frames_before = report.frame_bytes();
            proof {
                assert(k < before.conns.len());
                lemma_tick_next(before.cfg, before.conns, k, now);
                lemma_replace_at_seam(t.conns, before.conns, k, before.conns[k]);
            }
            let step = self.tick_one(i, now);
            proof {
                let v = tick_conn(before.cfg, before.conns[k], now);
                if let Verdict::Keep(c, m) = v {
                    lemma_replace_at_seam(t.conns, before.conns, k, c);
                }
            }
            match step {
                TickStep::Kept(f) => {
                    match f {
                        Some(b) => {
                            report.frames.push(b);
                            assert(report.frame_bytes() =~= frames_before.push(buf_bytes(b)));
                        },
                        None => {},
                    }
                    i = i + 1;
                },
                TickStep::Expired(id) => {
                    report.expired.push(id);
                },
                TickStep::Reset(id) => {
                    report.reset.push(id);
                },
            }
            proof {
                k = k + 1;
            }
        }
        proof {
            assert(before.conns.skip(k).len() == 0);
            assert(before.conns.take(k) =~= before.conns);
            assert(self@.conns =~= tick_all(before.cfg, before.conns, now).conns);
        }
        report
    }

    /// The connection under `id`.
    pub fn connection(&self, id: &Quad) -> (r: Option<&Connection>)
        ensures
            match r {
                Some(c) => first_match(self@.conns, *id, 0) matches Some(i) && c@
                    == self@.conns[i],
                None => first_match(self@.conns, *id, 0) is None,
            },
    {
        match self.find(id) {
            Some(i) => Some(&self.conns[i]),
            None => None,
        }
    }

    /// Hands over the bytes that the connection under `id` has received, and
    /// empties its receive buffer.
    pub fn take_received(&mut self, id: &Quad) -> (r: Option<Vec<u8>>)
        ensures
            match first_match(old(self)@.conns, *id, 0) {
                Some(i) => {
                    &&& r matches Some(data) && data@ == old(self)@.conns[i].rx_buf
                    &&& final(self)@ == old(self)@.with_conn(
                        i,
                        ConnModel { rx_buf: Seq::empty(), ..old(self)@.conns[i] },
                    )
                },
                None => r is None && final(self)@ == old(self)@,
            },
    {
        match self.find(id) {
            Some(i) => {
                let data = self.conns[i].take_received();
                assert(self@.conns =~= old(self)@.conns.update(
                    i as int,
                    ConnModel { rx_buf: Seq::empty(), ..old(self)@.conns[i as int] },
                ));
                Some(data)
            },
            None => None,
        }
    }

    /// Opens a connection actively and hands back the SYN to transmit.
    pub fn connect(&mut self, id: Quad, now: u64) -> (r: Result<Option<BytesMut>, UtcpError>)
        ensures
            final(self)@ == old(self)@.after_connect(id, now).0,
            sent(r) == old(self)@.after_connect(id, now).1,
            old(self)@.wf() ==> final(self)@.wf(),
    {
        proof {
            if old(self)@.wf() {
                lemma_connect_keeps_wf(old(self)@, id, now);
            }
        }
        match self.find(&id) {
            Some(i) => {
                let _ = self.conns.remove(i);
            },
            None => {},
        }
        assert(self@.conns =~= old(self)@.without(id));
        let iss: u32 = self.next_iss;
        let mut conn = Connection::new(id, State::SynSent, iss, now);
        conn.mss = mtu_segment_limit(self.cfg.mtu);
        self.conns.push(conn);
        self.next_iss = seq_plus(iss, ISS_STEP);
        assert(self@.conns =~= old(self)@.without(id).push(old(self)@.opened(id, now)));
        let empty: Vec<u8> = Vec::new();
        Ok(Some(build_frame(&self.cfg, &id, iss, 0, FLAG_SYN, empty.as_slice())))
    }

    /// Registers a listening port.
    pub fn listen(&mut self, port: u16) -> (r: Result<Option<BytesMut>, UtcpError>)
        ensures
            final(self)@ == old(self)@.after_listen(port).0,
            sent(r) == old(self)@.after_listen(port).1,
            old(self)@.wf() ==> final(self)@.wf(),
    {
        proof {
            if old(self)@.wf() {
                lemma_listen_keeps_wf(old(self)@, port);
            }
        }
        if self.find_listener(port).is_none() {
            self.listeners.push(Listener { port, backlog: Vec::new() });
            assert(self@.listeners =~= old(self)@.listeners.push(
                ListenerModel { port, backlog: Seq::empty() },
            ));
        }
        Ok(None)
    }

    /// Sends the next segment of the connection at `i`, if the window allows.
    fn flush(&mut self, i: usize, now: u64) -> (r: Result<Option<BytesMut>, UtcpError>)
        requires
            i < old(self).conns.len(),
        ensures
            final(self)@ == old(self)@.after_flush(i as int, now).0,
            sent(r) == old(self)@.after_flush(i as int, now).1,
    {
        let seq: u32 = self.conns[i].snd_nxt;
        let ack: u32 = self.conns[i].rcv_nxt;
        let id: Quad = self.conns[i].id;
        match self.conns[i].poll_send() {
            Ok(Some(chunk)) => {
                self.conns[i].touch(now);
                assert(self@.conns =~= old(self)@.after_flush(i as int, now).0.conns);
                let flags: u16 = FLAG_ACK | FLAG_PSH;
                Ok(Some(build_frame(&self.cfg, &id, seq, ack, flags, chunk.as_slice())))
            },
            _ => {
                assert(self.conns[i as int]@ =~= old(self).conns[i as int]@);
                assert(self@.conns =~= old(self)@.conns);
                Ok(None)
            },
        }
    }

    /// Queues bytes on a connection and sends what the window allows.
    pub fn send(&mut self, id: Quad, data: &[u8], now: u64) -> (r: Result<
        Option<BytesMut>,
        UtcpError,
    >)
        ensures
            final(self)@ == old(self)@.after_send(id, data@, now).0,
            sent(r) == old(self)@.after_send(id, data@, now).1,
            old(self)@.wf() ==> final(self)@.wf(),
    {
        proof {
            if old(self)@.wf() {
                lemma_send_keeps_wf(old(self)@, id, data@, now);
            }
        }
        match self.find(&id) {
            None => Err(UtcpError::ConnNotFound),
            Some(i) => {
                self.conns[i].enqueue(data);
                assert(self@.conns =~= old(self)@.conns.update(
                    i as int,
                    ConnModel {
                        tx_queue: old(self)@.conns[i as int].tx_queue + data@,
                        ..old(self)@.conns[i as int]
                    },
                ));
                self.flush(i, now)
            },
        }
    }

    /// Closes the sending side of a connection and hands back the FIN to
    /// transmit, if one is owed.
    pub fn close(&mut self, id: Quad, now: u64) -> (r: Result<Option<BytesMut>, UtcpError>)
        ensures
            final(self)@ == old(self)@.after_close(id, now).0,
            sent(r) == old(self)@.after_close(id, now).1,
            old(self)@.wf() ==> final(self)@.wf(),
    {
        proof {
            if old(self)@.wf() {
                lemma_close_keeps_table_wf(old(self)@, id, now);
            }
        }
        match self.find(&id) {
            None => Err(UtcpError::ConnNotFound),
            Some(i) => {
                let seq: u32 = self.conns[i].snd_nxt;
                let ack: u32 = self.conns[i].rcv_nxt;
                let key: Quad = self.conns[i].id;
                if self.conns[i].close() {
                    self.conns[i].touch(now);
                    assert(self@.conns =~= old(self)@.after_close(id, now).0.conns);
                    let empty: Vec<u8> = Vec::new();
                    let flags: u16 = FLAG_FIN | FLAG_ACK;
                    Ok(Some(build_frame(&self.cfg, &key, seq, ack, flags, empty.as_slice())))
                } else {
                    assert(self.conns[i as int]@ =~= old(self).conns[i as int]@);
                    assert(self@.conns =~= old(self)@.conns);
                    Ok(None)
                }
            },
        }
    }
}

} // verus!
