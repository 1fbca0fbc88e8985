//! What holds of the engine whatever the events: the table stays well
//! formed, the frames it sends are authentic, and the handshake and the
//! retransmission go as TCP asks.

use crate::error::UtcpError;
use crate::stack::model::{
    first_listener, first_match, resend_flags, route, segment_frame, tick_all, tick_conn,
    EngineModel, ListenerModel, Verdict,
};
use crate::stack::{StackConfig, PROTO_TCP};
use crate::tcp::conn::{
    has_flag, lemma_close_keeps_wf, lemma_poll_send_keeps_wf, lemma_segment_keeps_wf,
    lemma_timeout_keeps_wf, seq_add, ConnModel, Quad, State, DEFAULT_WINDOW, MAX_PAYLOAD,
};
use crate::wire::ipv4::{
    ipv4_accepts, ipv4_checksum_valid, ipv4_dst, ipv4_frame, ipv4_payload, ipv4_proto, ipv4_src,
    lemma_ipv4_round_trip, Ipv4Addr, Ipv4Header,
};
use crate::wire::tcp::{
    lemma_tcp_round_trip, plain_header, tcp_checksum, tcp_checksum_valid, tcp_parse,
    tcp_segment, Segment, FLAG_ACK, FLAG_FIN, FLAG_PSH, FLAG_SYN,
};
use vstd::prelude::*;

verus! {

/// What `first_match` finds: the first index at or after `from` with the
/// key, or none where no connection from there on has it.
pub proof fn lemma_first_match(conns: Seq<ConnModel>, id: Quad, from: nat)
    ensures
        match first_match(conns, id, from) {
            Some(i) => from <= i < conns.len() && conns[i].id == id && forall|j: int|
                from <= j < i ==> (#[trigger] conns[j]).id != id,
            None => forall|j: int| from <= j < conns.len() ==> (#[trigger] conns[j]).id != id,
        },
    decreases conns.len() - from,
{
    if from < conns.len() && conns[from as int].id != id {
        lemma_first_match(conns, id, from + 1);
    }
}

/// What `first_listener` finds: the first index at or after `from` on the
/// port, or none where no listener from there on is on it.
pub proof fn lemma_first_listener(listeners: Seq<ListenerModel>, port: u16, from: nat)
    ensures
        match first_listener(listeners, port, from) {
            Some(i) => from <= i < listeners.len() && listeners[i].port == port && forall|j: int|
                from <= j < i ==> (#[trigger] listeners[j]).port != port,
            None => forall|j: int|
                from <= j < listeners.len() ==> (#[trigger] listeners[j]).port != port,
        },
    decreases listeners.len() - from,
{
    if from < listeners.len() && listeners[from as int].port != port {
        lemma_first_listener(listeners, port, from + 1);
    }
}

/// Connect keeps the table well formed.
pub proof fn lemma_connect_keeps_wf(e: EngineModel, id: Quad, now: u64)
    requires
        e.wf(),
    ensures
        e.after_connect(id, now).0.wf(),
{
    lemma_first_match(e.conns, id, 0);
    let rest = e.without(id);
    let after = e.after_connect(id, now).0;
    assert forall|j: int| 0 <= j < rest.len() implies (#[trigger] rest[j]).id != id
        && rest[j].wf() by {
        match first_match(e.conns, id, 0) {
            Some(i) => {
                if j < i {
                    assert(rest[j] == e.conns[j]);
                } else {
                    assert(rest[j] == e.conns[j + 1]);
                }
            },
            None => {
                assert(rest[j] == e.conns[j]);
            },
        }
    }
    assert forall|i: int, j: int| 0 <= i < j < rest.len() implies (#[trigger] rest[i]).id != (
    #[trigger] rest[j]).id by {
        match first_match(e.conns, id, 0) {
            Some(m) => {
                let a = if i < m { i } else { i + 1 };
                let b = if j < m { j } else { j + 1 };
                assert(rest[i] == e.conns[a] && rest[j] == e.conns[b]);
            },
            None => {},
        }
    }
    assert(e.opened(id, now).wf());
}

/// Listen keeps the table well formed.
pub proof fn lemma_listen_keeps_wf(e: EngineModel, port: u16)
    requires
        e.wf(),
    ensures
        e.after_listen(port).0.wf(),
{
    lemma_first_listener(e.listeners, port, 0);
}

/// Sending the next segment of a connection keeps the table well formed.
pub proof fn lemma_flush_keeps_wf(e: EngineModel, i: int, now: u64)
    requires
        e.wf(),
        0 <= i < e.conns.len(),
    ensures
        e.after_flush(i, now).0.wf(),
{
    lemma_poll_send_keeps_wf(e.conns[i]);
}

/// Send keeps the table well formed.
pub proof fn lemma_send_keeps_wf(e: EngineModel, id: Quad, data: Seq<u8>, now: u64)
    requires
        e.wf(),
    ensures
        e.after_send(id, data, now).0.wf(),
{
    lemma_first_match(e.conns, id, 0);
    match first_match(e.conns, id, 0) {
        Some(i) => {
            let c = e.conns[i];
            let queued = e.with_conn(i, ConnModel { tx_queue: c.tx_queue + data, ..c });
            assert(queued.wf());
            lemma_flush_keeps_wf(queued, i, now);
        },
        None => {},
    }
}

/// Close keeps the table well formed.
pub proof fn lemma_close_keeps_table_wf(e: EngineModel, id: Quad, now: u64)
    requires
        e.wf(),
    ensures
        e.after_close(id, now).0.wf(),
{
    lemma_first_match(e.conns, id, 0);
    match first_match(e.conns, id, 0) {
        Some(i) => {
            lemma_close_keeps_wf(e.conns[i]);
        },
        None => {},
    }
}

/// Accept keeps the table well formed.
pub proof fn lemma_accept_keeps_wf(e: EngineModel, port: u16)
    requires
        e.wf(),
    ensures
        e.after_accept(port).0.wf(),
{
    lemma_first_listener(e.listeners, port, 0);
}

/// An inbound frame keeps the table well formed.
pub proof fn lemma_frame_keeps_wf(e: EngineModel, frame: Seq<u8>, now: u64)
    requires
        e.wf(),
    ensures
        e.after_frame(frame, now).0.wf(),
{
    if ipv4_accepts(frame) && ipv4_checksum_valid(frame) && ipv4_proto(frame) == PROTO_TCP {
        match tcp_parse(ipv4_payload(frame)) {
            Some(s) => {
                let id = route(frame, s);
                lemma_first_match(e.conns, id, 0);
                match first_match(e.conns, id, 0) {
                    Some(i) => {
                        lemma_segment_keeps_wf(e.conns[i], s);
                        lemma_first_listener(e.listeners, e.conns[i].id.src_port, 0);
                    },
                    None => {
                        let c = e.listening(id, now);
                        assert(c.wf());
                        lemma_segment_keeps_wf(c, s);
                    },
                }
            },
            None => {},
        }
    }
}

/// The connections that a tick keeps are well formed, keep their order, and
/// carry keys of the table before.
proof fn lemma_tick_keeps_conns(cfg: StackConfig, conns: Seq<ConnModel>, now: u64)
    requires
        forall|i: int, j: int|
            0 <= i < j < conns.len() ==> (#[trigger] conns[i]).id != (#[trigger] conns[j]).id,
        forall|i: int| 0 <= i < conns.len() ==> (#[trigger] conns[i]).wf(),
    ensures
        forall|i: int, j: int|
            0 <= i < j < tick_all(cfg, conns, now).conns.len() ==> (#[trigger] tick_all(
                cfg,
                conns,
                now,
            ).conns[i]).id != (#[trigger] tick_all(cfg, conns, now).conns[j]).id,
        forall|i: int|
            0 <= i < tick_all(cfg, conns, now).conns.len() ==> (#[trigger] tick_all(
                cfg,
                conns,
                now,
            ).conns[i]).wf(),
        forall|i: int|
            0 <= i < tick_all(cfg, conns, now).conns.len() ==> exists|k: int|
                0 <= k < conns.len() && (#[trigger] conns[k]).id == (#[trigger] tick_all(
                    cfg,
                    conns,
                    now,
                ).conns[i]).id,
    decreases conns.len(),
{
    if conns.len() > 0 {
        let front = conns.drop_last();
        let last = conns.last();
        assert forall|i: int, j: int| 0 <= i < j < front.len() implies (#[trigger] front[i]).id != (
        #[trigger] front[j]).id by {
            assert(front[i] == conns[i] && front[j] == conns[j]);
        }
        assert forall|i: int| 0 <= i < front.len() implies (#[trigger] front[i]).wf() by {
            assert(front[i] == conns[i]);
        }
        lemma_tick_keeps_conns(cfg, front, now);
        let t = tick_all(cfg, front, now);
        let out = tick_all(cfg, conns, now);
        lemma_timeout_keeps_wf(last);
        lemma_poll_send_keeps_wf(last);
        assert forall|i: int| 0 <= i < out.conns.len() implies (#[trigger] out.conns[i]).wf()
            && exists|k: int|
            0 <= k < conns.len() && (#[trigger] conns[k]).id == out.conns[i].id by {
            if i < t.conns.len() {
                assert(out.conns[i] == t.conns[i]);
                let k = choose|k: int|
                    0 <= k < front.len() && (#[trigger] front[k]).id == t.conns[i].id;
                assert(conns[k] == front[k]);
            } else {
                assert(out.conns[i].id == last.id);
                assert(conns[conns.len() - 1] == last);
            }
        }
        assert forall|i: int, j: int| 0 <= i < j < out.conns.len() implies (
        #[trigger] out.conns[i]).id != (#[trigger] out.conns[j]).id by {
            assert(out.conns[i] == t.conns[i]);
            if j < t.conns.len() {
                assert(out.conns[j] == t.conns[j]);
            } else {
                let k = choose|k: int|
                    0 <= k < front.len() && (#[trigger] front[k]).id == t.conns[i].id;
                assert(conns[k] == front[k]);
                assert(conns[conns.len() - 1] == last);
                assert(out.conns[j].id == last.id);
            }
        }
    }
}

/// A timer tick keeps the table well formed.
pub proof fn lemma_tick_keeps_wf(e: EngineModel, now: u64)
    requires
        e.wf(),
    ensures
        e.after_tick(now).wf(),
{
    lemma_tick_keeps_conns(e.cfg, e.conns, now);
}

/// The key under which the peer holds a connection: the two ends swapped.
pub open spec fn mirrored(id: Quad) -> Quad {
    Quad { src_ip: id.dst_ip, src_port: id.dst_port, dst_ip: id.src_ip, dst_port: id.src_port }
}

/// The frames that the engine sends are authentic: each passes the header
/// checksum test and the TCP checksum test, carries protocol 6, parses to
/// the fields it was built from, and reaches the peer under the mirrored key.
pub proof fn lemma_segment_frame_authentic(
    cfg: StackConfig,
    id: Quad,
    seq: u32,
    ack: u32,
    flags: u16,
    payload: Seq<u8>,
)
    requires
        flags < 512,
        payload.len() <= MAX_PAYLOAD,
    ensures
        ipv4_checksum_valid(segment_frame(cfg, id, seq, ack, flags, payload)),
        ipv4_proto(segment_frame(cfg, id, seq, ack, flags, payload)) == PROTO_TCP,
        tcp_checksum_valid(
            ipv4_payload(segment_frame(cfg, id, seq, ack, flags, payload)),
            ipv4_src(segment_frame(cfg, id, seq, ack, flags, payload)),
            ipv4_dst(segment_frame(cfg, id, seq, ack, flags, payload)),
        ),
        tcp_parse(ipv4_payload(segment_frame(cfg, id, seq, ack, flags, payload))) == Some(
            Segment {
                src_port: id.src_port,
                dst_port: id.dst_port,
                seq,
                ack,
                data_offset_words: 5,
                flags,
                window: DEFAULT_WINDOW,
                checksum: tcp_checksum(
                    plain_header(id.src_port, id.dst_port, seq, ack, flags, DEFAULT_WINDOW),
                    payload,
                    id.src_ip@,
                    id.dst_ip@,
                ),
                urg_ptr: 0,
                payload,
            },
        ),
        route(
            segment_frame(cfg, id, seq, ack, flags, payload),
            tcp_parse(ipv4_payload(segment_frame(cfg, id, seq, ack, flags, payload))).unwrap(),
        ) == mirrored(id),
{
    let h = plain_header(id.src_port, id.dst_port, seq, ack, flags, DEFAULT_WINDOW);
    let seg = tcp_segment(h, payload, id.src_ip@, id.dst_ip@);
    let ip = Ipv4Header {
        src: Ipv4Addr(id.src_ip),
        dst: Ipv4Addr(id.dst_ip),
        proto: PROTO_TCP,
        ident: cfg.ident_seed,
        ttl: cfg.ttl,
    };
    let f = segment_frame(cfg, id, seq, ack, flags, payload);
    assert(f == ipv4_frame(ip, seg));
    assert(id.src_ip@.len() == 4 && id.dst_ip@.len() == 4);
    lemma_tcp_round_trip(h, payload, id.src_ip@, id.dst_ip@);
    crate::wire::tcp::lemma_segment_len(h, payload, id.src_ip@, id.dst_ip@);
    lemma_ipv4_round_trip(ip, seg);
    assert(ipv4_payload(f) == seg);
    assert(ipv4_src(f) == id.src_ip@);
    assert(ipv4_dst(f) == id.dst_ip@);
    let s = tcp_parse(seg).unwrap();
    assert(s.src_port == id.src_port && s.dst_port == id.dst_port);
    assert(route(f, s) == mirrored(id));
}

/// Handshake, active side: Connect against an empty table leaves exactly one
/// connection, in `SynSent` under the given key, and hands back exactly one
/// frame: an authentic SYN whose sequence number is the connection's initial
/// sequence number.
pub proof fn lemma_connect_on_empty_table(e: EngineModel, id: Quad, now: u64)
    requires
        e.conns.len() == 0,
    ensures
        e.after_connect(id, now).0.conns.len() == 1,
        e.after_connect(id, now).0.conns[0].id == id,
        e.after_connect(id, now).0.conns[0].state == State::SynSent,
        e.after_connect(id, now).0.conns[0].iss == e.next_iss,
        e.after_connect(id, now).1 == Ok::<Option<Seq<u8>>, UtcpError>(
            Some(segment_frame(e.cfg, id, e.next_iss, 0, FLAG_SYN, Seq::empty())),
        ),
        tcp_parse(
            ipv4_payload(segment_frame(e.cfg, id, e.next_iss, 0, FLAG_SYN, Seq::empty())),
        ) matches Some(s) && s.seq == e.next_iss && s.flags == FLAG_SYN && s.payload.len() == 0,
{
    lemma_segment_frame_authentic(e.cfg, id, e.next_iss, 0, FLAG_SYN, Seq::empty());
}

/// Passive open: an authentic SYN without ACK for a listening port, under a
/// key that the table does not hold, adds one connection in `SynReceived`
/// that expects the byte behind the SYN, and hands back a SYN with an
/// acknowledgment under a fresh initial sequence number.
pub proof fn lemma_passive_open(e: EngineModel, frame: Seq<u8>, s: Segment, now: u64)
    requires
        ipv4_checksum_valid(frame),
        ipv4_proto(frame) == PROTO_TCP,
        tcp_parse(ipv4_payload(frame)) == Some(s),
        tcp_checksum_valid(ipv4_payload(frame), ipv4_src(frame), ipv4_dst(frame)),
        has_flag(s.flags, FLAG_SYN),
        !has_flag(s.flags, FLAG_ACK),
        first_listener(e.listeners, s.dst_port, 0) is Some,
        first_match(e.conns, route(frame, s), 0) is None,
    ensures
        e.after_frame(frame, now).0.conns.len() == e.conns.len() + 1,
        e.after_frame(frame, now).0.conns.drop_last() == e.conns,
        e.after_frame(frame, now).0.conns.last().id == route(frame, s),
        e.after_frame(frame, now).0.conns.last().state == State::SynReceived,
        e.after_frame(frame, now).0.conns.last().iss == e.next_iss,
        e.after_frame(frame, now).0.conns.last().rcv_nxt == seq_add(s.seq, 1),
        e.after_frame(frame, now).1 == Ok::<Option<Seq<u8>>, UtcpError>(
            Some(
                segment_frame(
                    e.cfg,
                    route(frame, s),
                    e.next_iss,
                    seq_add(s.seq, 1),
                    FLAG_SYN | FLAG_ACK,
                    Seq::empty(),
                ),
            ),
        ),
{
    let after = e.after_frame(frame, now).0;
    assert(after.conns.drop_last() =~= e.conns);
}

/// What the flag constants hold, bit for bit.
proof fn lemma_handshake_flags()
    ensures
        FLAG_SYN < 512,
        FLAG_SYN | FLAG_ACK < 512,
        has_flag(FLAG_SYN, FLAG_SYN),
        !has_flag(FLAG_SYN, FLAG_ACK),
        has_flag(FLAG_SYN | FLAG_ACK, FLAG_SYN),
        has_flag(FLAG_SYN | FLAG_ACK, FLAG_ACK),
{
    assert(0x02u16 | 0x10u16 == 0x12u16) by (bit_vector);
    assert(0x02u16 & 0x02u16 != 0) by (bit_vector);
    assert(0x02u16 & 0x10u16 == 0) by (bit_vector);
    assert(0x12u16 & 0x02u16 != 0) by (bit_vector);
    assert(0x12u16 & 0x10u16 != 0) by (bit_vector);
}

/// Handshake, first leg: the SYN that Connect hands back on one engine, fed
/// to an engine that listens on the remote port and holds no connection
/// under the mirrored key, opens a connection there in `SynReceived` that
/// expects the byte behind the SYN, and is answered by a SYN with an
/// acknowledgment of it.
pub proof fn lemma_syn_reaches_listener(
    a: EngineModel,
    b: EngineModel,
    id: Quad,
    now_a: u64,
    now_b: u64,
)
    requires
        first_listener(b.listeners, id.dst_port, 0) is Some,
        first_match(b.conns, mirrored(id), 0) is None,
    ensures
        a.after_connect(id, now_a).1 matches Ok(Some(syn)) && {
            &&& b.after_frame(syn, now_b).0.conns.len() == b.conns.len() + 1
            &&& b.after_frame(syn, now_b).0.conns.last().id == mirrored(id)
            &&& b.after_frame(syn, now_b).0.conns.last().state == State::SynReceived
            &&& b.after_frame(syn, now_b).0.conns.last().rcv_nxt == seq_add(a.next_iss, 1)
            &&& b.after_frame(syn, now_b).1 == Ok::<Option<Seq<u8>>, UtcpError>(
                Some(
                    segment_frame(
                        b.cfg,
                        mirrored(id),
                        b.next_iss,
                        seq_add(a.next_iss, 1),
                        FLAG_SYN | FLAG_ACK,
                        Seq::empty(),
                    ),
                ),
            )
        },
{
    lemma_handshake_flags();
    let syn = segment_frame(a.cfg, id, a.next_iss, 0, FLAG_SYN, Seq::empty());
    lemma_segment_frame_authentic(a.cfg, id, a.next_iss, 0, FLAG_SYN, Seq::empty());
    let s = tcp_parse(ipv4_payload(syn)).unwrap();
    lemma_passive_open(b, syn, s, now_b);
}

/// Handshake, second leg: the SYN with an acknowledgment that a peer sends
/// in answer to a connection in `SynSent` moves that connection to
/// `Established`, behind the peer's sequence number, and is answered by an
/// acknowledgment.
pub proof fn lemma_syn_ack_completes(
    a: EngineModel,
    peer: StackConfig,
    i: int,
    peer_iss: u32,
    now: u64,
)
    requires
        first_match(a.conns, a.conns[i].id, 0) == Some(i),
        a.conns[i].state == State::SynSent,
    ensures
        ({
            let c = a.conns[i];
            let syn_ack = segment_frame(
                peer,
                mirrored(c.id),
                peer_iss,
                seq_add(c.iss, 1),
                FLAG_SYN | FLAG_ACK,
                Seq::empty(),
            );
            let after = a.after_frame(syn_ack, now);
            &&& after.0.conns.len() == a.conns.len()
            &&& after.0.conns[i].state == State::Established
            &&& after.0.conns[i].rcv_nxt == seq_add(peer_iss, 1)
            &&& after.0.conns[i].snd_una == seq_add(c.iss, 1)
            &&& after.0.conns[i].snd_nxt == seq_add(c.iss, 1)
            &&& after.1 == Ok::<Option<Seq<u8>>, UtcpError>(
                Some(
                    segment_frame(
                        a.cfg,
                        c.id,
                        seq_add(c.iss, 1),
                        seq_add(peer_iss, 1),
                        FLAG_ACK,
                        Seq::empty(),
                    ),
                ),
            )
        }),
{
    lemma_handshake_flags();
    let c = a.conns[i];
    lemma_segment_frame_authentic(
        peer,
        mirrored(c.id),
        peer_iss,
        seq_add(c.iss, 1),
        FLAG_SYN | FLAG_ACK,
        Seq::empty(),
    );
    assert(mirrored(mirrored(c.id)) == c.id);
    lemma_first_match(a.conns, c.id, 0);
}

/// Data transfer: the frame in which an engine sends the next bytes of a
/// connection, fed to an engine that holds the established peer connection,
/// appends exactly those bytes to what the peer has received, moves the
/// peer's `rcv_nxt` behind them, and is answered by an acknowledgment of
/// them.
pub proof fn lemma_data_reaches_peer(
    a: EngineModel,
    b: EngineModel,
    i: int,
    j: int,
    now_a: u64,
    now_b: u64,
)
    requires
        0 <= i < a.conns.len(),
        a.conns[i].sendable() > 0,
        first_match(b.conns, mirrored(a.conns[i].id), 0) == Some(j),
        b.conns[j].state == State::Established,
    ensures
        a.after_flush(i, now_a).1 matches Ok(Some(f)) && ({
            let sent = a.conns[i].tx_queue.take(a.conns[i].sendable() as int);
            let after = b.after_frame(f, now_b);
            &&& after.0.conns.len() == b.conns.len()
            &&& after.0.conns[j].state == State::Established
            &&& after.0.conns[j].rx_buf == b.conns[j].rx_buf + sent
            &&& after.0.conns[j].rcv_nxt == seq_add(a.conns[i].snd_nxt, sent.len())
            &&& after.1 == Ok::<Option<Seq<u8>>, UtcpError>(
                Some(
                    segment_frame(
                        b.cfg,
                        mirrored(a.conns[i].id),
                        after.0.conns[j].snd_nxt,
                        seq_add(a.conns[i].snd_nxt, sent.len()),
                        FLAG_ACK,
                        Seq::empty(),
                    ),
                ),
            )
        }),
{
    let c = a.conns[i];
    let sent = c.tx_queue.take(c.sendable() as int);
    assert(0x10u16 | 0x08u16 == 0x18u16) by (bit_vector);
    assert(0x18u16 & 0x01u16 == 0) by (bit_vector);
    assert(FLAG_ACK | FLAG_PSH < 512 && !has_flag(FLAG_ACK | FLAG_PSH, FLAG_FIN));
    assert(sent.len() == c.sendable());
    assert(c.sendable() <= MAX_PAYLOAD);
    lemma_segment_frame_authentic(a.cfg, c.id, c.snd_nxt, c.rcv_nxt, FLAG_ACK | FLAG_PSH, sent);
    lemma_first_match(b.conns, mirrored(c.id), 0);
}

/// Retransmission by the timer: a connection whose deadline has passed with
/// sequence space in flight, short of the limit, stays in the table with its
/// buffer kept, and a frame goes out that carries the head of the buffer
/// under the sequence number `snd_una`. Its deadline then counts from `now`,
/// so that the same tick does not send it twice.
pub proof fn lemma_tick_retransmits(cfg: StackConfig, c: ConnModel, now: u64)
    requires
        !c.expired(now),
        c.retransmit_due(now),
        !c.exhausted(),
    ensures
        tick_conn(cfg, c, now) matches Verdict::Keep(kept, Some(f)) && {
            &&& kept.unacked == c.unacked
            &&& kept.snd_una == c.snd_una
            &&& kept.snd_nxt == c.snd_nxt
            &&& kept.retries == c.retries + 1
            &&& kept.last_activity == now
            &&& kept.rto > 0 ==> !kept.retransmit_due(now)
            &&& f == segment_frame(
                cfg,
                c.id,
                c.snd_una,
                c.rcv_nxt,
                resend_flags(c),
                c.resend(),
            )
        },
{
}

} // verus!
