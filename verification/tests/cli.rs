//! The command line.

use andromeda::addr::Ipv4Addr;
use andromeda::afxdp::{Mode, XdpMode};
use andromeda::cli::{command, demo_frame, parse_run, ArgError, Command, RunSettings};
use andromeda::ethernet::{EthFrame, MacAddr};
use andromeda::five_tuple_of;
use andromeda::ipv4::Ipv4View;
use andromeda::overlay;
use andromeda::pipeline::Decision;
use andromeda::udp;

fn strings(args: &[&str]) -> Vec<String> {
    args.iter().map(|s| s.to_string()).collect()
}

fn run(args: &[&str]) -> Result<RunSettings, ArgError> {
    parse_run(&strings(args))
}

#[test]
fn commands() {
    assert_eq!(command(None), Command::Version);
    assert_eq!(command(Some("version")), Command::Version);
    assert_eq!(command(Some("--version")), Command::Version);
    assert_eq!(command(Some("selftest")), Command::SelfTest);
    assert_eq!(command(Some("run")), Command::Run);
    for h in ["help", "--help", "-h"] {
        assert_eq!(command(Some(h)), Command::Help);
    }
    assert_eq!(command(Some("runs")), Command::Unknown);
    assert_eq!(command(Some("")), Command::Unknown);
}

#[test]
fn run_defaults() {
    let s = run(&["eth0"]).unwrap();
    assert_eq!((s.queue, s.mode, s.vni, s.batch), (0, Mode::Dump, 100, 64));
    assert_eq!(s.local_node, Ipv4Addr::new(192, 168, 1, 1));
    assert_eq!(s.peer_node, Ipv4Addr::new(192, 168, 1, 2));
    assert_eq!((s.nat_ip, s.max_packets, s.max_secs), (None, None, None));
    assert_eq!(s.xdp_mode, XdpMode::Auto);
}

#[test]
fn run_options() {
    let s = run(&[
        "eth0", "--queue", "3", "--mode", "encap", "--vni", "+7", "--local-node", "10.9.8.7",
        "--peer-node", "10.9.8.6", "--nat-ip", "203.0.113.7", "--count", "18446744073709551615",
        "--secs", "60", "--batch", "4294967295", "--skb", "--drv",
    ])
    .unwrap();
    assert_eq!((s.queue, s.mode, s.vni, s.batch), (3, Mode::Encap, 7, u32::MAX));
    assert_eq!(s.local_node, Ipv4Addr::new(10, 9, 8, 7));
    assert_eq!(s.peer_node, Ipv4Addr::new(10, 9, 8, 6));
    assert_eq!(s.nat_ip, Some(Ipv4Addr::new(203, 0, 113, 7)));
    assert_eq!((s.max_packets, s.max_secs), (Some(u64::MAX), Some(60)));
    assert_eq!(s.xdp_mode, XdpMode::Drv);
    let o = s.opts();
    assert_eq!((o.mode, o.max_packets, o.max_secs, o.batch), (Mode::Encap, Some(u64::MAX), Some(60), u32::MAX));
    // The last mention counts.
    assert_eq!(run(&["eth0", "--mode", "encap", "--mode", "decap"]).unwrap().mode, Mode::Decap);
}

#[test]
fn run_errors() {
    assert_eq!(run(&[]).err(), Some(ArgError::NoInterface));
    assert_eq!(run(&["--queue", "1"]).err(), Some(ArgError::NoInterface));
    assert_eq!(run(&["eth0", "--what"]).err(), Some(ArgError::UnknownOption(1)));
    assert_eq!(run(&["eth0", "--skb", "--vni"]).err(), Some(ArgError::MissingValue(2)));
    assert_eq!(run(&["eth0", "--mode", "fly"]).err(), Some(ArgError::BadValue(1)));
    assert_eq!(run(&["eth0", "--batch", "4294967296"]).err(), Some(ArgError::BadValue(1)));
    assert_eq!(run(&["eth0", "--count", "18446744073709551616"]).err(), Some(ArgError::BadValue(1)));
    assert_eq!(run(&["eth0", "--secs", ""]).err(), Some(ArgError::BadValue(1)));
    assert_eq!(run(&["eth0", "--secs", "-1"]).err(), Some(ArgError::BadValue(1)));
    assert_eq!(run(&["eth0", "--nat-ip", "1.2.3"]).err(), Some(ArgError::BadValue(1)));
}

#[test]
fn run_pipeline_sends_everything_to_the_peer() {
    let s = run(&["eth0", "--vni", "9", "--nat-ip", "203.0.113.7"]).unwrap();
    let mut p = s.pipeline();
    assert_eq!(p.fabric.vpc(9).unwrap().name, "vpc-9");
    assert_eq!(p.fabric.endpoint_count(), 0);
    let frame = demo_frame(Ipv4Addr::new(10, 0, 0, 10), Ipv4Addr::new(10, 0, 0, 20), b"x");
    let mut wire = vec![0u8; 256];
    let n = match p.on_tenant_frame(&frame, &mut wire, 1) {
        Decision::Forward(n) => n,
        other => panic!("got {other:?}"),
    };
    let d = overlay::decap(&wire[..n]).unwrap().unwrap();
    assert_eq!(d.header.vni, 9);
    assert_eq!(d.outer_src_ip, Ipv4Addr::new(192, 168, 1, 1));
    assert_eq!(d.outer_dst_ip, Ipv4Addr::new(192, 168, 1, 2));
    // A source port in the pool is kept.
    assert_eq!(
        five_tuple_of(&d.inner[14..]).unwrap().to_string(),
        "203.0.113.7:40000 -> 10.0.0.20:4242 proto=17"
    );
    assert_eq!(p.config().virtual_gateway_mac, MacAddr([2, 0, 0, 0, 0, 0xff]));
}

#[test]
fn demo_frame_is_well_formed() {
    let (a, b) = (Ipv4Addr::new(10, 0, 0, 10), Ipv4Addr::new(10, 0, 0, 20));
    let f = demo_frame(a, b, b"hello from the tenant");
    assert_eq!(f.len(), 63);
    let eth = EthFrame::parse(&f).unwrap();
    assert_eq!(eth.dst(), MacAddr([2, 0, 0, 0, 0, 0x0b]));
    assert_eq!(eth.src(), MacAddr([2, 0, 0, 0, 0, 0x0a]));
    let ip = Ipv4View::parse(eth.payload()).unwrap();
    assert!(ip.checksum_valid());
    assert_eq!(ip.total_length(), 49);
    let mut l4 = ip.payload().to_vec();
    let stored = udp::UdpView::parse(&l4).unwrap().checksum();
    l4[6] = 0;
    l4[7] = 0;
    assert_eq!(stored, udp::compute_checksum(a, b, &l4));
    assert_eq!(&l4[8..], b"hello from the tenant");
}
