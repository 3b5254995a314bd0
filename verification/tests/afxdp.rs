//! Frame accounting and loop decisions.

use andromeda::afxdp::forwarder::{Action, Forwarder, Role};
use andromeda::afxdp::{
    frame_summary, next_tick, Mode, RunOpts, RunStats, Tick, XdpMode,
    XskConfig, XskSocket,
};
use andromeda::pipeline::Decision;

fn socket(n_frames: u32) -> XskSocket {
    XskSocket::new(5, &XskConfig { n_frames, ..Default::default() })
}

#[test]
fn default_config() {
    let c = XskConfig::default();
    assert_eq!((c.n_frames, c.frame_size, c.fill_size), (4096, 2048, 2048));
    assert_eq!((c.comp_size, c.rx_size, c.tx_size), (2048, 2048, 2048));
    assert_eq!(c.xdp_mode, XdpMode::Auto);
    assert_eq!((XdpMode::Auto.code(), XdpMode::Skb.code(), XdpMode::Drv.code()), (0, 1, 2));
}

#[test]
fn frames_start_free_and_move() {
    let mut s = socket(4);
    assert_eq!((s.fd(), s.frame_size(), s.free_frames()), (5, 2048, 4));
    assert_eq!(s.to_fill(3), &[2048, 4096, 6144]);
    assert_eq!(s.to_fill(0), &[] as &[u64]);
    assert_eq!(s.to_fill(9), &[0, 2048, 4096, 6144]);
    s.filled(2, 2);
    assert_eq!(s.to_fill(9), &[0, 2048]);
    assert_eq!(s.alloc_tx(), Some(2048));
    assert_eq!(s.alloc_tx(), Some(0));
    assert_eq!(s.alloc_tx(), None);
    s.recycle(2048);
    s.completed(&[0, 6144]);
    assert_eq!(s.to_fill(9), &[2048, 0, 6144]);
}

#[test]
fn a_ring_that_takes_part_of_the_offer_owns_that_part() {
    let mut s = socket(5);
    assert_eq!(s.to_fill(4), &[2048, 4096, 6144, 8192]);
    // The ring took the first of them; the rest stay free, in their order.
    s.filled(4, 1);
    assert_eq!(s.to_fill(9), &[0, 4096, 6144, 8192]);
    s.filled(9, 2);
    assert_eq!(s.to_fill(9), &[6144, 8192]);
    s.filled(9, 0);
    assert_eq!(s.free_frames(), 2);
    s.filled(9, 2);
    assert_eq!(s.free_frames(), 0);
}

#[test]
fn received_lengths_are_bounded() {
    let s = socket(1);
    let mut lens = [1u32, 3000, 2048, 5000];
    s.clamp(&mut lens, 3);
    assert_eq!(lens, [1, 2048, 2048, 5000]);
}

#[test]
fn loop_limits() {
    let mut opts = RunOpts { mode: Mode::Dump, max_packets: Some(10), max_secs: Some(3), batch: 0 };
    let mut stats = RunStats::default();
    stats.rx = 9;
    assert_eq!(opts.batch_size(), 1);
    assert_eq!(next_tick(&opts, &stats, false, 2, 999), Tick::Wait);
    assert_eq!(next_tick(&opts, &stats, false, 2, 1000), Tick::Collect);
    assert_eq!(next_tick(&opts, &stats, false, 3, 0), Tick::Stop);
    assert_eq!(next_tick(&opts, &stats, true, 0, 0), Tick::Stop);
    stats.rx = 10;
    assert_eq!(next_tick(&opts, &stats, false, 0, 0), Tick::Stop);
    opts.max_packets = None;
    opts.max_secs = None;
    opts.batch = 64;
    assert_eq!(next_tick(&opts, &stats, false, u64::MAX, 0), Tick::Wait);
    assert_eq!(opts.batch_size(), 64);
}

#[test]
fn dump_shows_the_first_frames() {
    let mut f = Forwarder::single(socket(1));
    for i in 1..=21u64 {
        match f.received(Role::of_mode(Mode::Dump), 4096, 60) {
            Action::Show { seq, addr, len } => assert_eq!((seq, addr, len), (i, 4096, 60)),
            Action::Done => assert_eq!(i, 21),
            other => panic!("got {other:?}"),
        }
    }
    assert_eq!((f.stats().rx, f.stats().bytes_in), (21, 21 * 60));
    assert_eq!(f.port(0).free_frames(), 22);
}

#[test]
fn encap_sends_or_drops() {
    let mut f = Forwarder::single(socket(2));
    let work = match f.received(Role::Encap, 9000, 100) {
        Action::Process(w) => w,
        other => panic!("got {other:?}"),
    };
    assert_eq!(work.tx(), 2048);
    match f.decided(work, Decision::Reply(42)) {
        Action::Send { sending, len } => {
            assert_eq!((sending.port(), sending.addr(), len), (0, 2048, 42));
            f.queued(sending, true);
        }
        other => panic!("got {other:?}"),
    }
    assert_eq!((f.stats().tx, f.stats().dropped), (1, 0));
    assert_eq!(f.port(0).to_fill(9), &[0, 9000]);
    // The ring is full: both frames come back.
    let work = match f.received(Role::Encap, 10000, 100) {
        Action::Process(w) => w,
        other => panic!("got {other:?}"),
    };
    match f.decided(work, Decision::Forward(150)) {
        Action::Send { sending, .. } => f.queued(sending, false),
        other => panic!("got {other:?}"),
    }
    assert_eq!((f.stats().tx, f.stats().dropped), (1, 1));
    assert_eq!(f.port(0).to_fill(9), &[0, 9000, 10000]);
    // Dropped by the pipeline.
    let work = match f.received(Role::Encap, 11000, 100) {
        Action::Process(w) => w,
        other => panic!("got {other:?}"),
    };
    assert!(matches!(f.decided(work, Decision::Drop("no-route")), Action::Done));
    assert_eq!(f.stats().dropped, 2);
    // No frame to build in.
    f.filled(0, 4, 4);
    assert!(matches!(f.received(Role::Encap, 12000, 100), Action::Done));
    assert_eq!(f.stats().dropped, 3);
    assert_eq!(f.port(0).to_fill(9), &[12000]);
}

#[test]
fn decap_shows_and_does_not_count_drops() {
    let mut f = Forwarder::single(socket(1));
    let work = match f.received(Role::Decap, 9000, 100) {
        Action::Process(w) => w,
        other => panic!("got {other:?}"),
    };
    match f.decided(work, Decision::Forward(50)) {
        Action::Show { seq, addr, len } => assert_eq!((seq, addr, len), (1, 0, 50)),
        other => panic!("got {other:?}"),
    }
    assert_eq!(f.port(0).to_fill(9), &[0, 9000]);
    let work = match f.received(Role::Decap, 9100, 100) {
        Action::Process(w) => w,
        other => panic!("got {other:?}"),
    };
    assert!(matches!(f.decided(work, Decision::Pass), Action::Done));
    assert_eq!((f.stats().decapped, f.stats().dropped), (1, 0));
    f.filled(0, 3, 3);
    assert!(matches!(f.received(Role::Decap, 9200, 1), Action::Done));
    assert_eq!(f.stats().dropped, 0);
}

#[test]
fn switch_moves_frames_between_ports() {
    let mut f = Forwarder::switch(socket(2), socket(1));
    // Tenant frame, encapsulated on the underlay port.
    let work = match f.received(Role::Tenant, 8192, 60) {
        Action::Process(w) => w,
        other => panic!("got {other:?}"),
    };
    match f.decided(work, Decision::Forward(110)) {
        Action::Send { sending, len } => {
            assert_eq!((sending.port(), sending.addr(), len), (1, 0, 110));
            f.queued(sending, true);
        }
        other => panic!("got {other:?}"),
    }
    assert_eq!(f.port(0).to_fill(9), &[0, 2048, 8192]);
    assert_eq!(f.port(1).free_frames(), 0);
    f.completed(1, &[0]);
    // An ARP reply goes back out the tenant port.
    let work = match f.received(Role::Tenant, 4096, 60) {
        Action::Process(w) => w,
        other => panic!("got {other:?}"),
    };
    match f.decided(work, Decision::Reply(42)) {
        Action::CopySend { from, sending, len } => {
            assert_eq!((from, sending.port(), sending.addr(), len), (0, 0, 8192, 42));
            f.queued(sending, false);
        }
        other => panic!("got {other:?}"),
    }
    assert_eq!(f.port(0).to_fill(9), &[0, 2048, 8192, 4096]);
    assert_eq!(f.port(1).to_fill(9), &[0]);
    // An underlay frame is delivered on the tenant port.
    let work = match f.received(Role::Underlay, 6144, 110) {
        Action::Process(w) => w,
        other => panic!("got {other:?}"),
    };
    match f.decided(work, Decision::Forward(60)) {
        Action::Send { sending, len } => {
            assert_eq!((sending.port(), sending.addr(), len), (0, 4096, 60));
            f.queued(sending, true);
        }
        other => panic!("got {other:?}"),
    }
    assert_eq!(f.port(1).to_fill(9), &[0, 6144]);
    let s = f.stats();
    assert_eq!((s.rx, s.tx, s.dropped, s.decapped, s.bytes_in), (3, 2, 1, 1, 230));
}

#[test]
fn switch_without_a_tenant_frame_drops_the_reply() {
    let mut f = Forwarder::switch(socket(0), socket(1));
    let work = match f.received(Role::Tenant, 4096, 60) {
        Action::Process(w) => w,
        other => panic!("got {other:?}"),
    };
    assert!(matches!(f.decided(work, Decision::Reply(42)), Action::Done));
    assert_eq!(f.stats().dropped, 1);
    assert_eq!(f.port(0).to_fill(9), &[4096]);
    assert_eq!(f.port(1).to_fill(9), &[0]);
}

#[test]
fn summaries() {
    assert_eq!(frame_summary(&[0; 3], 7), "#7    3 bytes  <unparsable>");
    let mut frame = vec![
        2, 0, 0, 0, 0, 0x0b, 2, 0, 0, 0, 0, 0x0a, 0x08, 0x06, // ARP
    ];
    assert_eq!(
        frame_summary(&frame, 12345),
        "#12345 14 bytes  02:00:00:00:00:0a -> 02:00:00:00:00:0b  ethertype=0x0806"
    );
    frame[13] = 0;
    frame.extend_from_slice(&[
        0x45, 0, 0, 28, 0, 0, 0, 0, 64, 17, 0, 0, 10, 0, 0, 1, 10, 0, 0, 2, // IPv4
        0x12, 0x34, 0, 53, 0, 8, 0, 0, // UDP
    ]);
    assert_eq!(
        frame_summary(&frame, 100),
        "#100  42 bytes  02:00:00:00:00:0a -> 02:00:00:00:00:0b  10.0.0.1:4660 -> 10.0.0.2:53 proto=17"
    );
}
