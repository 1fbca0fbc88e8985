use urtcp::error::UtcpError;
use urtcp::stack::{
    build_frame, mtu_segment_limit, Command, Engine, StackConfig, ISS_STEP, PROTO_TCP,
};
use urtcp::tcp::conn::{Quad, State};
use urtcp::wire::ipv4::{parse_ipv4, verify_header_checksum, Ipv4Addr, Ipv4Header};
use urtcp::wire::tcp::{parse, verify_checksum, TcpHeader, FLAG_ACK, FLAG_FIN, FLAG_PSH, FLAG_SYN};

const A_IP: [u8; 4] = [10, 0, 0, 1];
const B_IP: [u8; 4] = [10, 0, 0, 2];

fn cfg(ip: [u8; 4]) -> StackConfig {
    StackConfig { local_ip: ip, ttl: 64, ident_seed: 1, mtu: 1500 }
}

fn a_id() -> Quad {
    Quad { src_ip: A_IP, src_port: 50_000, dst_ip: B_IP, dst_port: 80 }
}

fn b_id() -> Quad {
    Quad { src_ip: B_IP, src_port: 80, dst_ip: A_IP, dst_port: 50_000 }
}

struct Seen {
    src: [u8; 4],
    dst: [u8; 4],
    ttl: u8,
    ident: u16,
    src_port: u16,
    dst_port: u16,
    seq: u32,
    ack: u32,
    flags: u16,
    window: u16,
    payload: Vec<u8>,
}

fn look(frame: &[u8]) -> Seen {
    assert!(verify_header_checksum(frame));
    let ip = parse_ipv4(frame).expect("frame parses");
    assert_eq!(ip.proto, 6);
    assert_eq!(ip.ihl_bytes, 20);
    assert!(verify_checksum(ip.payload, ip.src, ip.dst));
    let tcp = parse(ip.payload).expect("segment parses");
    assert_eq!(tcp.data_offset_words, 5);
    Seen {
        src: ip.src,
        dst: ip.dst,
        ttl: frame[8],
        ident: u16::from_be_bytes([frame[4], frame[5]]),
        src_port: tcp.src_port,
        dst_port: tcp.dst_port,
        seq: tcp.seq,
        ack: tcp.ack,
        flags: tcp.flags,
        window: tcp.window,
        payload: tcp.payload.to_vec(),
    }
}

/// Two engines with an established connection from A (port 50000) to B
/// (port 80). A starts at sequence number 1000, B at 9000.
fn connected() -> (Engine, Engine) {
    let mut a = Engine::new(cfg(A_IP), 1000);
    let mut b = Engine::new(cfg(B_IP), 9000);
    assert!(matches!(b.listen(80), Ok(None)));
    let syn = a.connect(a_id(), 0).unwrap().unwrap();
    let syn_ack = b.on_frame(&syn, 0).unwrap().unwrap();
    let ack = a.on_frame(&syn_ack, 0).unwrap().unwrap();
    assert!(matches!(b.on_frame(&ack, 0), Ok(None)));
    (a, b)
}

#[test]
fn engine_constants() {
    assert_eq!(PROTO_TCP, 6);
    assert_eq!(ISS_STEP, 64_000);
}

#[test]
fn segment_size_follows_the_mtu() {
    assert_eq!(mtu_segment_limit(1500), 1460);
    assert_eq!(mtu_segment_limit(9000), 1460);
    assert_eq!(mtu_segment_limit(1499), 1459);
    assert_eq!(mtu_segment_limit(576), 536);
    assert_eq!(mtu_segment_limit(41), 1);
    assert_eq!(mtu_segment_limit(40), 1);
    assert_eq!(mtu_segment_limit(0), 1);
}

#[test]
fn new_engine_is_empty() {
    let e = Engine::new(cfg(A_IP), 5);
    assert!(e.conns.is_empty());
    assert!(e.listeners.is_empty());
    assert_eq!(e.next_iss, 5);
    assert_eq!(e.cfg.local_ip, A_IP);
    assert_eq!(e.cfg.mtu, 1500);
}

#[test]
fn build_frame_wraps_a_segment_in_ipv4() {
    let c = StackConfig { local_ip: A_IP, ttl: 33, ident_seed: 0xbeef, mtu: 1500 };
    let frame = build_frame(&c, &a_id(), 7, 9, FLAG_ACK | FLAG_PSH, b"abc");
    let seg = TcpHeader::new(50_000, 80, 7, 9, FLAG_ACK | FLAG_PSH, 65_535).encode(b"abc", A_IP, B_IP);
    let expected = Ipv4Header {
        src: Ipv4Addr(A_IP),
        dst: Ipv4Addr(B_IP),
        proto: 6,
        ident: 0xbeef,
        ttl: 33,
    }
    .encode(&seg);
    assert_eq!(&frame[..], &expected[..]);
    assert_eq!(frame.len(), 43);
}

#[test]
fn handshake() {
    let mut e = Engine::new(StackConfig { local_ip: A_IP, ttl: 17, ident_seed: 0x0a0b, mtu: 1500 }, 1000);
    let frame = e.connect(a_id(), 42).unwrap().expect("a SYN goes out");
    assert_eq!(e.conns.len(), 1);
    let c = &e.conns[0];
    assert_eq!(c.id, a_id());
    assert_eq!(c.state, State::SynSent);
    assert_eq!(c.iss, 1000);
    assert_eq!(c.snd_una, 1000);
    assert_eq!(c.snd_nxt, 1000);
    assert_eq!(c.last_activity, 42);
    assert_eq!(c.mss, 1460);
    assert_eq!(e.next_iss, 65_000);

    let syn = look(&frame);
    assert_eq!(frame.len(), 40);
    assert_eq!(syn.src, A_IP);
    assert_eq!(syn.dst, B_IP);
    assert_eq!(syn.ttl, 17);
    assert_eq!(syn.ident, 0x0a0b);
    assert_eq!(syn.src_port, 50_000);
    assert_eq!(syn.dst_port, 80);
    assert_eq!(syn.seq, 1000);
    assert_eq!(syn.ack, 0);
    assert_eq!(syn.flags, FLAG_SYN);
    assert_eq!(syn.window, 65_535);
    assert!(syn.payload.is_empty());
    assert_eq!(frame[6], 0x40);
    assert_eq!(frame[7], 0x00);
}

#[test]
fn connect_takes_the_place_of_a_connection_under_the_same_key() {
    let mut e = Engine::new(cfg(A_IP), 1000);
    e.connect(a_id(), 0).unwrap();
    let other = Quad { dst_port: 81, ..a_id() };
    e.connect(other, 0).unwrap();
    let frame = e.connect(a_id(), 5).unwrap().unwrap();
    assert_eq!(e.conns.len(), 2);
    assert_eq!(e.conns[0].id, other);
    assert_eq!(e.conns[0].iss, 65_000);
    assert_eq!(e.conns[1].id, a_id());
    assert_eq!(e.conns[1].iss, 129_000);
    assert_eq!(e.conns[1].state, State::SynSent);
    assert_eq!(look(&frame).seq, 129_000);
    assert_eq!(e.next_iss, 193_000);
}

#[test]
fn initial_sequence_number_wraps() {
    let mut e = Engine::new(cfg(A_IP), u32::MAX - 10);
    e.connect(a_id(), 0).unwrap();
    assert_eq!(e.conns[0].iss, u32::MAX - 10);
    assert_eq!(e.next_iss, 63_989);
}

#[test]
fn listen_registers_a_port_once() {
    let mut e = Engine::new(cfg(B_IP), 0);
    assert!(matches!(e.listen(80), Ok(None)));
    assert!(matches!(e.listen(443), Ok(None)));
    assert!(matches!(e.listen(80), Ok(None)));
    assert_eq!(e.listeners.len(), 2);
    assert_eq!(e.listeners[0].port, 80);
    assert_eq!(e.listeners[1].port, 443);
    assert_eq!(e.find_listener(443), Some(1));
    assert_eq!(e.find_listener(81), None);
}

#[test]
fn passive_open() {
    let mut a = Engine::new(cfg(A_IP), 1000);
    let mut b = Engine::new(cfg(B_IP), 9000);
    b.listen(80).unwrap();
    let syn = a.connect(a_id(), 0).unwrap().unwrap();
    let reply = b.on_frame(&syn, 7).unwrap().expect("a SYN-ACK goes out");
    assert_eq!(b.conns.len(), 1);
    let c = &b.conns[0];
    assert_eq!(c.id, b_id());
    assert_eq!(c.state, State::SynReceived);
    assert_eq!(c.iss, 9000);
    assert_eq!(c.snd_nxt, 9000);
    assert_eq!(c.rcv_nxt, 1001);
    assert_eq!(c.peer_window, 65_535);
    assert_eq!(c.last_activity, 7);
    assert_eq!(b.next_iss, 73_000);

    let syn_ack = look(&reply);
    assert_eq!(syn_ack.src, B_IP);
    assert_eq!(syn_ack.dst, A_IP);
    assert_eq!(syn_ack.src_port, 80);
    assert_eq!(syn_ack.dst_port, 50_000);
    assert_eq!(syn_ack.flags, FLAG_SYN | FLAG_ACK);
    assert_eq!(syn_ack.flags, 0x12);
    assert_eq!(syn_ack.seq, 9000);
    assert_eq!(syn_ack.ack, 1001);
    assert!(syn_ack.payload.is_empty());
    assert_eq!(b.accept(80), None);
}

#[test]
fn syn_for_a_port_without_listener_is_dropped() {
    let mut a = Engine::new(cfg(A_IP), 1000);
    let mut b = Engine::new(cfg(B_IP), 9000);
    b.listen(81).unwrap();
    let syn = a.connect(a_id(), 0).unwrap().unwrap();
    assert!(matches!(b.on_frame(&syn, 0), Ok(None)));
    assert!(b.conns.is_empty());
    assert_eq!(b.next_iss, 9000);
}

#[test]
fn stray_segments_that_are_no_syn_are_dropped() {
    let mut b = Engine::new(cfg(B_IP), 9000);
    b.listen(80).unwrap();
    for flags in [FLAG_ACK, FLAG_SYN | FLAG_ACK, FLAG_FIN, FLAG_PSH, 0] {
        let frame = build_frame(&cfg(A_IP), &a_id(), 1, 2, flags, b"x");
        assert!(matches!(b.on_frame(&frame, 0), Ok(None)));
        assert!(b.conns.is_empty());
    }
}

#[test]
fn three_way_handshake() {
    let mut a = Engine::new(cfg(A_IP), 1000);
    let mut b = Engine::new(cfg(B_IP), 9000);
    b.listen(80).unwrap();
    let syn = a.connect(a_id(), 0).unwrap().unwrap();
    let syn_ack = b.on_frame(&syn, 1).unwrap().unwrap();
    let ack = a.on_frame(&syn_ack, 2).unwrap().expect("an ACK goes out");
    assert_eq!(a.conns[0].state, State::Established);
    assert_eq!(a.conns[0].rcv_nxt, 9001);
    assert_eq!(a.conns[0].snd_una, 1001);
    assert_eq!(a.conns[0].snd_nxt, 1001);
    assert_eq!(a.conns[0].last_activity, 2);
    let seen = look(&ack);
    assert_eq!(seen.flags, FLAG_ACK);
    assert_eq!(seen.seq, 1001);
    assert_eq!(seen.ack, 9001);

    assert!(matches!(b.on_frame(&ack, 3), Ok(None)));
    assert_eq!(b.conns[0].state, State::Established);
    assert_eq!(b.conns[0].snd_una, 9001);
    assert_eq!(b.conns[0].snd_nxt, 9001);
    assert_eq!(b.conns[0].last_activity, 3);
    assert_eq!(b.listeners[0].backlog, vec![b_id()]);
    assert_eq!(b.accept(81), None);
    assert_eq!(b.accept(80), Some(b_id()));
    assert_eq!(b.accept(80), None);
}

#[test]
fn accept_hands_out_the_oldest_first() {
    let mut b = Engine::new(cfg(B_IP), 9000);
    b.listen(80).unwrap();
    let mut want = vec![];
    for port in [50_000u16, 50_001, 50_002] {
        let mut a = Engine::new(cfg(A_IP), 1000);
        let id = Quad { src_port: port, ..a_id() };
        let syn = a.connect(id, 0).unwrap().unwrap();
        let syn_ack = b.on_frame(&syn, 0).unwrap().unwrap();
        let ack = a.on_frame(&syn_ack, 0).unwrap().unwrap();
        b.on_frame(&ack, 0).unwrap();
        want.push(Quad { dst_port: port, ..b_id() });
    }
    assert_eq!(b.conns.len(), 3);
    for id in want {
        assert_eq!(b.accept(80), Some(id));
    }
    assert_eq!(b.accept(80), None);
}

#[test]
fn data_transfer() {
    let (mut a, mut b) = connected();
    let frame = a.send(a_id(), b"hello", 10).unwrap().expect("a data segment goes out");
    let seen = look(&frame);
    assert_eq!(seen.flags, FLAG_ACK | FLAG_PSH);
    assert_eq!(seen.seq, 1001);
    assert_eq!(seen.ack, 9001);
    assert_eq!(seen.payload, b"hello");
    assert_eq!(a.conns[0].snd_nxt, 1006);
    assert_eq!(a.conns[0].unacked, b"hello");
    assert_eq!(a.conns[0].last_activity, 10);

    let ack = b.on_frame(&frame, 11).unwrap().expect("an ACK goes out");
    assert_eq!(b.conns[0].rcv_nxt, 1006);
    assert_eq!(b.conns[0].rx_buf, b"hello");
    let seen = look(&ack);
    assert_eq!(seen.flags, FLAG_ACK);
    assert_eq!(seen.seq, 9001);
    assert_eq!(seen.ack, 1006);
    assert_eq!(b.take_received(&b_id()), Some(b"hello".to_vec()));
    assert_eq!(b.take_received(&b_id()), Some(vec![]));
    assert_eq!(b.take_received(&a_id()), None);

    assert!(matches!(a.on_frame(&ack, 12), Ok(None)));
    assert_eq!(a.conns[0].snd_una, 1006);
    assert!(a.conns[0].unacked.is_empty());
    assert_eq!(a.conns[0].cc.cwnd, 2920);
    assert_eq!(a.conns[0].last_activity, 12);
}

#[test]
fn send_queues_what_the_window_does_not_allow() {
    let (mut a, _b) = connected();
    let data: Vec<u8> = (0..4000).map(|i| (i % 251) as u8).collect();
    let first = a.send(a_id(), &data, 10).unwrap().unwrap();
    assert_eq!(look(&first).payload, &data[..1460]);
    assert_eq!(a.conns[0].tx_queue.len(), 2540);
    // The window is used up: more bytes only join the queue.
    assert!(matches!(a.send(a_id(), b"tail", 11), Ok(None)));
    assert_eq!(a.conns[0].tx_queue.len(), 2544);
    assert_eq!(a.conns[0].last_activity, 10);
}

#[test]
fn segments_fit_the_mtu() {
    let mut a = Engine::new(StackConfig { mtu: 576, ..cfg(A_IP) }, 1000);
    let mut b = Engine::new(StackConfig { mtu: 576, ..cfg(B_IP) }, 9000);
    b.listen(80).unwrap();
    let syn = a.connect(a_id(), 0).unwrap().unwrap();
    let syn_ack = b.on_frame(&syn, 0).unwrap().unwrap();
    a.on_frame(&syn_ack, 0).unwrap();
    assert_eq!(a.conns[0].mss, 536);
    assert_eq!(b.conns[0].mss, 536);
    let frame = a.send(a_id(), &[1u8; 1000], 0).unwrap().unwrap();
    assert_eq!(frame.len(), 576);
    assert_eq!(look(&frame).payload.len(), 536);
}

#[test]
fn commands_for_unknown_connections_fail() {
    let mut e = Engine::new(cfg(A_IP), 1000);
    assert!(matches!(e.send(a_id(), b"x", 0), Err(UtcpError::ConnNotFound)));
    assert!(matches!(e.close(a_id(), 0), Err(UtcpError::ConnNotFound)));
    assert!(matches!(e.on_cmd(Command::Send(a_id(), vec![1]), 0), Err(UtcpError::ConnNotFound)));
    assert!(matches!(e.on_cmd(Command::Close(a_id()), 0), Err(UtcpError::ConnNotFound)));
    assert!(e.conns.is_empty());
    assert!(e.connection(&a_id()).is_none());
    assert_eq!(e.find(&a_id()), None);
}

#[test]
fn commands_dispatch() {
    let (mut a, mut b) = connected();
    assert!(matches!(b.on_cmd(Command::Listen(8080), 0), Ok(None)));
    assert_eq!(b.listeners.len(), 2);
    let other = Quad { src_port: 50_001, ..a_id() };
    let syn = a.on_cmd(Command::Connect(other), 0).unwrap().unwrap();
    assert_eq!(look(&syn).flags, FLAG_SYN);
    assert_eq!(a.conns.len(), 2);
    let data = a.on_cmd(Command::Send(a_id(), b"abc".to_vec()), 0).unwrap().unwrap();
    assert_eq!(look(&data).payload, b"abc");
    let fin = a.on_cmd(Command::Close(a_id()), 0).unwrap().unwrap();
    assert_eq!(look(&fin).flags, FLAG_FIN | FLAG_ACK);
    assert_eq!(a.connection(&a_id()).unwrap().state, State::FinWait1);
    assert_eq!(a.find(&other), Some(1));
}

#[test]
fn close_handshake() {
    let (mut a, mut b) = connected();
    let fin = a.close(a_id(), 20).unwrap().expect("a FIN goes out");
    let seen = look(&fin);
    assert_eq!(seen.flags, FLAG_FIN | FLAG_ACK);
    assert_eq!(seen.seq, 1001);
    assert_eq!(seen.ack, 9001);
    assert_eq!(a.conns[0].state, State::FinWait1);
    assert_eq!(a.conns[0].snd_nxt, 1002);
    assert_eq!(a.conns[0].last_activity, 20);
    assert!(matches!(a.close(a_id(), 21), Ok(None)));

    let ack = b.on_frame(&fin, 21).unwrap().expect("an ACK goes out");
    assert_eq!(b.conns[0].state, State::CloseWait);
    assert!(b.conns[0].rx_eof);
    assert_eq!(look(&ack).ack, 1002);

    assert!(matches!(a.on_frame(&ack, 22), Ok(None)));
    assert_eq!(a.conns[0].state, State::FinWait2);

    let fin = b.close(b_id(), 23).unwrap().expect("a FIN goes out");
    assert_eq!(b.conns[0].state, State::LastAck);
    let seen = look(&fin);
    assert_eq!(seen.flags, FLAG_FIN | FLAG_ACK);
    assert_eq!(seen.seq, 9001);
    assert_eq!(seen.ack, 1002);

    let ack = a.on_frame(&fin, 24).unwrap().expect("an ACK goes out");
    assert_eq!(a.conns[0].state, State::TimeWait);
    assert!(a.conns[0].rx_eof);
    assert_eq!(a.conns[0].last_activity, 24);
    let seen = look(&ack);
    assert_eq!(seen.seq, 1002);
    assert_eq!(seen.ack, 9002);

    assert!(matches!(b.on_frame(&ack, 25), Ok(None)));
    assert_eq!(b.conns[0].state, State::Closed);

    let report = b.on_tick(26);
    assert!(report.frames.is_empty());
    assert!(report.reset.is_empty());
    assert_eq!(report.expired, vec![b_id()]);
    assert!(b.conns.is_empty());

    let report = a.on_tick(60_023);
    assert!(report.expired.is_empty());
    assert_eq!(a.conns.len(), 1);
    let report = a.on_tick(60_024);
    assert_eq!(report.expired, vec![a_id()]);
    assert!(a.conns.is_empty());
}

#[test]
fn broken_frames_are_refused_and_change_nothing() {
    let (mut a, mut b) = connected();
    let good = a.send(a_id(), b"hello", 10).unwrap().unwrap().to_vec();

    for len in 0..20 {
        assert!(matches!(b.on_frame(&good[..len], 11), Err(UtcpError::Malformed)));
    }
    let mut bad = good.clone();
    bad[0] = 0x65;
    assert!(matches!(b.on_frame(&bad, 11), Err(UtcpError::Malformed)));

    let mut bad = good.clone();
    bad[8] ^= 1;
    assert!(matches!(b.on_frame(&bad, 11), Err(UtcpError::Checksum)));

    // The TCP header is cut short: 10 bytes behind a valid IPv4 header.
    let short = Ipv4Header { src: Ipv4Addr(A_IP), dst: Ipv4Addr(B_IP), proto: 6, ident: 1, ttl: 64 }
        .encode(&good[20..30]);
    assert!(matches!(b.on_frame(&short, 11), Err(UtcpError::Malformed)));

    for byte in 20..good.len() {
        let mut bad = good.clone();
        bad[byte] ^= 0x10;
        let r = b.on_frame(&bad, 11);
        if byte == 32 {
            // The data offset drops to four words: the header contradicts itself.
            assert!(matches!(r, Err(UtcpError::Malformed)));
        } else {
            assert!(matches!(r, Err(UtcpError::Checksum)), "byte {}", byte);
        }
    }

    assert_eq!(b.conns.len(), 1);
    assert_eq!(b.conns[0].rcv_nxt, 1001);
    assert!(b.conns[0].rx_buf.is_empty());
    assert_eq!(b.conns[0].last_activity, 0);

    assert!(matches!(b.on_frame(&good, 11), Ok(Some(_))));
    assert_eq!(b.conns[0].rx_buf, b"hello");
}

#[test]
fn other_protocols_are_dropped() {
    let (_a, mut b) = connected();
    let udp = Ipv4Header { src: Ipv4Addr(A_IP), dst: Ipv4Addr(B_IP), proto: 17, ident: 1, ttl: 64 }
        .encode(&[0u8; 8]);
    assert!(matches!(b.on_frame(&udp, 5), Ok(None)));
    assert_eq!(b.conns.len(), 1);
}

#[test]
fn tick_retransmits_once_per_deadline() {
    let (mut a, _b) = connected();
    let sent = a.send(a_id(), b"hello", 1000).unwrap().unwrap();

    let report = a.on_tick(1299);
    assert!(report.frames.is_empty());
    assert_eq!(a.conns[0].retries, 0);

    let report = a.on_tick(1300);
    assert_eq!(report.frames.len(), 1);
    assert_eq!(&report.frames[0][..], &sent[..]);
    let seen = look(&report.frames[0]);
    assert_eq!(seen.seq, 1001);
    assert_eq!(seen.payload, b"hello");
    assert_eq!(seen.flags, FLAG_ACK | FLAG_PSH);
    let c = &a.conns[0];
    assert_eq!(c.unacked, b"hello");
    assert_eq!(c.rto, 600);
    assert_eq!(c.retries, 1);
    assert_eq!(c.cc.cwnd, 1460);
    assert_eq!(c.cc.ssthresh, 2920);
    assert_eq!(c.last_activity, 1300);

    // The same instant again: nothing is due.
    assert!(a.on_tick(1300).frames.is_empty());
    assert!(a.on_tick(1899).frames.is_empty());
    assert_eq!(a.on_tick(1900).frames.len(), 1);
    assert_eq!(a.conns[0].rto, 1200);
}

#[test]
fn tick_gives_up_after_twelve_timeouts() {
    let (mut a, _b) = connected();
    a.send(a_id(), b"hello", 0).unwrap();
    let mut now = 0u64;
    for i in 0..12 {
        now += 60_000;
        let report = a.on_tick(now);
        assert_eq!(report.frames.len(), 1, "timeout {}", i);
        assert!(report.reset.is_empty());
    }
    assert_eq!(a.conns[0].retries, 12);
    now += 60_000;
    let report = a.on_tick(now);
    assert!(report.frames.is_empty());
    assert_eq!(report.reset, vec![a_id()]);
    assert!(report.expired.is_empty());
    assert!(a.conns.is_empty());
}

#[test]
fn tick_retransmits_a_fin() {
    let (mut a, _b) = connected();
    a.send(a_id(), b"bye", 0).unwrap();
    a.close(a_id(), 0).unwrap();
    let report = a.on_tick(300);
    assert_eq!(report.frames.len(), 1);
    let seen = look(&report.frames[0]);
    assert_eq!(seen.flags, FLAG_ACK | FLAG_PSH | FLAG_FIN);
    assert_eq!(seen.seq, 1001);
    assert_eq!(seen.payload, b"bye");

    let (mut a, _b) = connected();
    a.close(a_id(), 0).unwrap();
    let report = a.on_tick(300);
    let seen = look(&report.frames[0]);
    assert_eq!(seen.flags, FLAG_ACK | FLAG_FIN);
    assert_eq!(seen.seq, 1001);
    assert!(seen.payload.is_empty());
}

#[test]
fn tick_sends_queued_bytes_when_the_window_opens() {
    let (mut a, mut b) = connected();
    let data: Vec<u8> = (0..2000).map(|i| (i % 251) as u8).collect();
    let first = a.send(a_id(), &data, 0).unwrap().unwrap();
    assert!(a.on_tick(1).frames.is_empty());
    let ack = b.on_frame(&first, 2).unwrap().unwrap();
    a.on_frame(&ack, 3).unwrap();
    let report = a.on_tick(4);
    assert_eq!(report.frames.len(), 1);
    let seen = look(&report.frames[0]);
    assert_eq!(seen.seq, 2461);
    assert_eq!(seen.payload, &data[1460..]);
    assert_eq!(seen.flags, FLAG_ACK | FLAG_PSH);
    assert_eq!(a.conns[0].last_activity, 4);
    let ack = b.on_frame(&report.frames[0], 5).unwrap().unwrap();
    assert_eq!(look(&ack).ack, 3001);
    assert_eq!(b.take_received(&b_id()), Some(data));
}

#[test]
fn tick_ages_out_an_unanswered_handshake() {
    let mut a = Engine::new(cfg(A_IP), 1000);
    a.connect(a_id(), 100).unwrap();
    let report = a.on_tick(60_099);
    assert!(report.frames.is_empty() && report.expired.is_empty());
    let report = a.on_tick(60_100);
    assert_eq!(report.expired, vec![a_id()]);
    assert!(a.conns.is_empty());
}

#[test]
fn tick_visits_every_connection_in_order() {
    let mut a = Engine::new(cfg(A_IP), 1000);
    let mut b = Engine::new(cfg(B_IP), 9000);
    b.listen(80).unwrap();
    let mut ids = vec![];
    for port in [50_000u16, 50_001, 50_002, 50_003] {
        let id = Quad { src_port: port, ..a_id() };
        let syn = a.connect(id, 0).unwrap().unwrap();
        let syn_ack = b.on_frame(&syn, 0).unwrap().unwrap();
        let ack = a.on_frame(&syn_ack, 0).unwrap().unwrap();
        b.on_frame(&ack, 0).unwrap();
        ids.push(id);
    }
    // First: data in flight. Second: closed. Third: idle. Fourth: data in flight.
    a.send(ids[0], b"one", 0).unwrap();
    a.conns[1].state = State::Closed;
    a.send(ids[3], b"four", 0).unwrap();
    let report = a.on_tick(300);
    assert_eq!(report.frames.len(), 2);
    assert_eq!(look(&report.frames[0]).payload, b"one");
    assert_eq!(look(&report.frames[1]).payload, b"four");
    assert_eq!(report.expired, vec![ids[1]]);
    assert!(report.reset.is_empty());
    assert_eq!(a.conns.len(), 3);
    assert_eq!(a.conns[0].id, ids[0]);
    assert_eq!(a.conns[1].id, ids[2]);
    assert_eq!(a.conns[2].id, ids[3]);
}

#[test]
fn segments_go_to_the_connection_under_their_key() {
    let mut a = Engine::new(cfg(A_IP), 1000);
    let mut b = Engine::new(cfg(B_IP), 9000);
    b.listen(80).unwrap();
    let first = a_id();
    let second = Quad { src_port: 50_001, ..a_id() };
    for id in [first, second] {
        let syn = a.connect(id, 0).unwrap().unwrap();
        let syn_ack = b.on_frame(&syn, 0).unwrap().unwrap();
        let ack = a.on_frame(&syn_ack, 0).unwrap().unwrap();
        b.on_frame(&ack, 0).unwrap();
    }
    let frame = a.send(second, b"to the second", 0).unwrap().unwrap();
    b.on_frame(&frame, 0).unwrap();
    assert!(b.conns[0].rx_buf.is_empty());
    assert_eq!(b.conns[1].rx_buf, b"to the second");
    assert_eq!(b.conns[1].id, Quad { dst_port: 50_001, ..b_id() });
}
