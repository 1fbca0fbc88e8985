use urtcp::tcp::congestion::{Reno, INITIAL_SSTHRESH, MSS};

#[test]
fn reno_starts_at_one_segment() {
    let r = Reno::default();
    assert_eq!(r.cwnd, 1460);
    assert_eq!(r.ssthresh, 65_535);
    assert_eq!(MSS, 1460);
    assert_eq!(INITIAL_SSTHRESH, 65_535);
}

#[test]
fn slow_start_adds_a_segment_per_ack() {
    let mut r = Reno::default();
    r.on_ack();
    assert_eq!(r.cwnd, 2920);
    r.on_ack();
    assert_eq!(r.cwnd, 4380);
    assert_eq!(r.ssthresh, 65_535);
}

#[test]
fn slow_start_ends_at_the_threshold() {
    let mut r = Reno { cwnd: 2919, ssthresh: 2920 };
    r.on_ack();
    assert_eq!(r.cwnd, 4379);
    // 1460 * 1460 / 4379 = 486
    r.on_ack();
    assert_eq!(r.cwnd, 4379 + 486);
}

#[test]
fn congestion_avoidance_adds_a_share_of_a_segment() {
    let mut r = Reno { cwnd: 65_535, ssthresh: 65_535 };
    // 1460 * 1460 / 65535 = 32
    r.on_ack();
    assert_eq!(r.cwnd, 65_567);
    let mut r = Reno { cwnd: 1460, ssthresh: 1460 };
    r.on_ack();
    assert_eq!(r.cwnd, 2920);
}

#[test]
fn congestion_avoidance_adds_at_least_one_byte() {
    let mut r = Reno { cwnd: 3_000_000, ssthresh: 10 };
    r.on_ack();
    assert_eq!(r.cwnd, 3_000_001);
    let mut r = Reno { cwnd: 2_131_600, ssthresh: 10 };
    r.on_ack();
    assert_eq!(r.cwnd, 2_131_601);
    let mut r = Reno { cwnd: 0, ssthresh: 0 };
    r.on_ack();
    assert_eq!(r.cwnd, 1);
}

#[test]
fn window_saturates() {
    let mut r = Reno { cwnd: usize::MAX - 10, ssthresh: usize::MAX };
    r.on_ack();
    assert_eq!(r.cwnd, usize::MAX);
    let mut r = Reno { cwnd: usize::MAX, ssthresh: 0 };
    r.on_ack();
    assert_eq!(r.cwnd, usize::MAX);
}

#[test]
fn timeout_halves_the_flight_and_resets_the_window() {
    let mut r = Reno { cwnd: 30_000, ssthresh: 65_535 };
    r.on_timeout(10_000);
    assert_eq!(r.cwnd, 1460);
    assert_eq!(r.ssthresh, 5_000);
}

#[test]
fn timeout_threshold_is_at_least_two_segments() {
    let mut r = Reno { cwnd: 30_000, ssthresh: 65_535 };
    r.on_timeout(5_839);
    assert_eq!(r.ssthresh, 2_920);
    r.on_timeout(5_840);
    assert_eq!(r.ssthresh, 2_920);
    r.on_timeout(5_842);
    assert_eq!(r.ssthresh, 2_921);
    r.on_timeout(0);
    assert_eq!(r.ssthresh, 2_920);
    assert_eq!(r.cwnd, 1460);
}
