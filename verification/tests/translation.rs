//! Network address translation.

use andromeda::addr::Ipv4Addr;
use andromeda::ipv4;
use andromeda::ipv4::{proto, Ipv4View};
use andromeda::tcp;
use andromeda::translate::{apply, Direction, DnatRule, NatEngine, Rewrite, MAX_DNAT_BINDINGS};
use andromeda::udp;
use andromeda::{five_tuple_of, FiveTuple, ParseError};

fn ip(s: &str) -> Ipv4Addr {
    s.parse().unwrap()
}

fn tuple(s: &str, sp: u16, d: &str, dp: u16, pr: u8) -> FiveTuple {
    FiveTuple { src_ip: ip(s), dst_ip: ip(d), protocol: pr, src_port: sp, dst_port: dp }
}

#[test]
fn snat_allocates_and_reverses() {
    let mut nat = NatEngine::new(ip("203.0.113.7"), 20000, 20010);
    let out = tuple("10.0.0.5", 40000, "1.1.1.1", 443, proto::TCP);

    let rw = nat.process(out, Direction::Outbound, 1);
    assert_eq!(rw.new_src_ip, Some(ip("203.0.113.7")));
    let nat_port = rw.new_src_port.unwrap();

    // Same flow again → stable binding, no new allocation.
    let rw2 = nat.process(out, Direction::Outbound, 2);
    assert_eq!(rw2.new_src_port, Some(nat_port));
    assert_eq!(nat.stats().snat_created, 1);
    assert_eq!(nat.stats().snat_hits, 1);

    // Reply comes back to nat_ip:nat_port → reversed to the private endpoint.
    let reply = tuple("1.1.1.1", 443, "203.0.113.7", nat_port, proto::TCP);
    let rrw = nat.process(reply, Direction::Inbound, 3);
    assert_eq!(rrw.new_dst_ip, Some(ip("10.0.0.5")));
    assert_eq!(rrw.new_dst_port, Some(40000));
}

#[test]
fn dnat_forwards_and_reverses() {
    let mut nat = NatEngine::new(ip("203.0.113.7"), 20000, 20010);
    nat.add_dnat_rule(DnatRule {
        protocol: proto::TCP,
        ext_port: 80,
        to_ip: ip("10.0.0.9"),
        to_port: 8080,
    });

    let inbound = tuple("8.8.8.8", 51000, "203.0.113.7", 80, proto::TCP);
    let rw = nat.process(inbound, Direction::Inbound, 1);
    assert_eq!(rw.new_dst_ip, Some(ip("10.0.0.9")));
    assert_eq!(rw.new_dst_port, Some(8080));

    // Server reply must be un-DNAT'd back to the external identity.
    let server_reply = tuple("10.0.0.9", 8080, "8.8.8.8", 51000, proto::TCP);
    let rrw = nat.process(server_reply, Direction::Outbound, 2);
    assert_eq!(rrw.new_src_ip, Some(ip("203.0.113.7")));
    assert_eq!(rrw.new_src_port, Some(80));
}

#[test]
fn gc_frees_ports() {
    let mut nat = NatEngine::new(ip("203.0.113.7"), 20000, 20001);
    nat.process(tuple("10.0.0.1", 1, "1.1.1.1", 80, proto::TCP), Direction::Outbound, 100);
    nat.process(tuple("10.0.0.2", 2, "1.1.1.1", 80, proto::TCP), Direction::Outbound, 100);
    assert_eq!(nat.active_bindings(), 2);
    // Idle timeout of 50 at now=200 → both (last_seen 100) evicted.
    let evicted = nat.gc(200, 50);
    assert_eq!(evicted, 2);
    assert_eq!(nat.active_bindings(), 0);
}

#[test]
fn ports_are_kept_taken_in_turn_and_run_out() {
    let mut nat = NatEngine::new(ip("203.0.113.7"), 20000, 20002);
    // A source port in the pool is kept.
    let a = nat.process(tuple("10.0.0.1", 20001, "1.1.1.1", 80, 6), Direction::Outbound, 1);
    assert_eq!(a.new_src_port, Some(20001));
    // Others get the next free port.
    let b = nat.process(tuple("10.0.0.1", 5, "1.1.1.1", 80, 6), Direction::Outbound, 1);
    assert_eq!(b.new_src_port, Some(20000));
    let c = nat.process(tuple("10.0.0.2", 20001, "1.1.1.1", 80, 6), Direction::Outbound, 1);
    assert_eq!(c.new_src_port, Some(20002));
    // The pool is exhausted: nothing is rewritten.
    let d = nat.process(tuple("10.0.0.3", 7, "1.1.1.1", 80, 6), Direction::Outbound, 1);
    assert!(d.is_noop());
    assert_eq!(d, Rewrite::default());
    assert_eq!(nat.stats().port_exhausted, 1);
    assert_eq!(nat.active_bindings(), 3);
    // A flow that keeps talking survives collection, the others free their ports.
    nat.process(tuple("10.0.0.1", 5, "1.1.1.1", 80, 6), Direction::Outbound, 90);
    assert_eq!(nat.gc(100, 50), 2);
    assert_eq!(nat.stats().expired, 2);
    let e = nat.process(tuple("10.0.0.3", 20002, "1.1.1.1", 80, 6), Direction::Outbound, 100);
    assert_eq!(e.new_src_port, Some(20002));
    let f = nat.process(tuple("10.0.0.1", 5, "1.1.1.1", 80, 6), Direction::Outbound, 101);
    assert_eq!(f.new_src_port, Some(20000));
}

#[test]
fn collection_before_the_timeout_keeps_everything() {
    let mut nat = NatEngine::new(ip("203.0.113.7"), 20000, 20002);
    nat.process(tuple("10.0.0.1", 1, "1.1.1.1", 80, 17), Direction::Outbound, 0);
    assert_eq!(nat.gc(10, 50), 0);
    assert_eq!(nat.gc(50, 50), 0);
    assert_eq!(nat.gc(51, 50), 1);
}

#[test]
fn the_reply_of_a_live_flow_survives_collection() {
    // Every packet of a flow refreshes the expected reply too: it goes only with the flow.
    let mut nat = NatEngine::new(ip("203.0.113.7"), 20000, 20010);
    let out = tuple("10.0.0.5", 40000, "1.1.1.1", 443, proto::TCP);
    assert_eq!(nat.process(out, Direction::Outbound, 0).new_src_port, Some(20000));
    nat.process(out, Direction::Outbound, 100);
    assert_eq!(nat.gc(120, 50), 0);
    let reply = tuple("1.1.1.1", 443, "203.0.113.7", 20000, proto::TCP);
    let back = Rewrite {
        new_src_ip: None,
        new_dst_ip: Some(ip("10.0.0.5")),
        new_src_port: None,
        new_dst_port: Some(40000),
    };
    assert_eq!(nat.process(reply, Direction::Inbound, 121), back);
    // The reply was seen after the flow, and stays for a while when the flow goes.
    assert_eq!(nat.gc(160, 50), 1);
    assert_eq!(nat.process(reply, Direction::Inbound, 161), back);
    assert_eq!(nat.gc(212, 50), 0);
    assert!(nat.process(reply, Direction::Inbound, 212).is_noop());
}

#[test]
fn a_reply_is_seen_at_the_time_given() {
    // Times are taken as they come: a reply with an earlier time is idle from then on.
    let mut nat = NatEngine::new(ip("203.0.113.7"), 20000, 20010);
    let out = tuple("10.0.0.5", 20005, "1.1.1.1", 443, proto::TCP);
    nat.process(out, Direction::Outbound, 100);
    let reply = tuple("1.1.1.1", 443, "203.0.113.7", 20005, proto::TCP);
    assert_eq!(nat.process(reply, Direction::Inbound, 3).new_dst_port, Some(20005));
    assert_eq!(nat.gc(100, 50), 0);
    assert!(nat.process(reply, Direction::Inbound, 101).is_noop());
    // The next packet of the flow has its reply tracked again.
    nat.process(out, Direction::Outbound, 102);
    assert_eq!(nat.process(reply, Direction::Inbound, 103).new_dst_port, Some(20005));
}

#[test]
fn inbound_without_a_rule_is_left_alone() {
    let mut nat = NatEngine::new(ip("203.0.113.7"), 20000, 20002);
    nat.add_dnat_rule(DnatRule { protocol: 6, ext_port: 80, to_ip: ip("10.0.0.9"), to_port: 8080 });
    nat.add_dnat_rule(DnatRule { protocol: 6, ext_port: 80, to_ip: ip("10.0.0.8"), to_port: 1 });
    // Wrong protocol, wrong port, wrong address.
    assert!(nat.process(tuple("8.8.8.8", 1, "203.0.113.7", 80, 17), Direction::Inbound, 1).is_noop());
    assert!(nat.process(tuple("8.8.8.8", 1, "203.0.113.7", 81, 6), Direction::Inbound, 1).is_noop());
    assert!(nat.process(tuple("8.8.8.8", 1, "203.0.113.8", 80, 6), Direction::Inbound, 1).is_noop());
    // The first rule counts.
    let rw = nat.process(tuple("8.8.8.8", 1, "203.0.113.7", 80, 6), Direction::Inbound, 1);
    assert_eq!((rw.new_dst_ip, rw.new_dst_port), (Some(ip("10.0.0.9")), Some(8080)));
    assert_eq!((rw.new_src_ip, rw.new_src_port), (None, None));
    assert_eq!(nat.stats().dnat_created, 1);
    assert_eq!(nat.stats().dnat_hits, 0);
}

#[test]
fn forwarding_goes_on_when_the_table_is_full() {
    let mut nat = NatEngine::new(ip("203.0.113.7"), 20000, 20002);
    nat.add_dnat_rule(DnatRule { protocol: 17, ext_port: 53, to_ip: ip("10.0.0.9"), to_port: 53 });
    for i in 0..MAX_DNAT_BINDINGS as u32 {
        let t = FiveTuple {
            src_ip: Ipv4Addr { bits: i },
            dst_ip: ip("203.0.113.7"),
            protocol: 17,
            src_port: 9,
            dst_port: 53,
        };
        nat.process(t, Direction::Inbound, 1);
    }
    assert_eq!(nat.stats().dnat_created, 65536);
    let rw = nat.process(tuple("9.9.9.9", 9, "203.0.113.7", 53, 17), Direction::Inbound, 1);
    assert_eq!(rw.new_dst_ip, Some(ip("10.0.0.9")));
    assert_eq!(nat.stats().dnat_created, 65536);
    // Its reply is not tracked and is translated like any other flow.
    let back = nat.process(tuple("10.0.0.9", 53, "9.9.9.9", 9, 17), Direction::Outbound, 2);
    assert_eq!(back.new_src_port, Some(20000));
}

#[test]
fn apply_snat_to_real_tcp_packet_keeps_checksums_valid() {
    // Build IPv4 + TCP packet: 10.0.0.5:40000 -> 1.1.1.1:443.
    let src: Ipv4Addr = ip("10.0.0.5");
    let dst: Ipv4Addr = ip("1.1.1.1");
    let mut tcp_seg = vec![
        0x9c, 0x40, 0x01, 0xbb, // 40000 -> 443
        0, 0, 0, 1, 0, 0, 0, 0, 0x50, 0x02, 0x72, 0x10, 0, 0, 0, 0,
    ];
    let c = tcp::compute_checksum(src, dst, &tcp_seg);
    tcp_seg[16..18].copy_from_slice(&c.to_be_bytes());

    let mut pkt = vec![0u8; ipv4::IPV4_MIN_HDR_LEN + tcp_seg.len()];
    ipv4::write_header(&mut pkt[..20], src, dst, proto::TCP, 64, 1, true, tcp_seg.len() as u16);
    pkt[20..].copy_from_slice(&tcp_seg);

    // SNAT src -> 203.0.113.7:20000.
    let rw = Rewrite {
        new_src_ip: Some(ip("203.0.113.7")),
        new_src_port: Some(20000),
        ..Default::default()
    };
    apply(&mut pkt, &rw).unwrap();

    let v = Ipv4View::parse(&pkt).unwrap();
    assert!(v.checksum_valid(), "IPv4 checksum valid after SNAT");
    assert_eq!(v.src(), ip("203.0.113.7"));

    // TCP checksum must verify against the NEW pseudo-header.
    let new_src: Ipv4Addr = ip("203.0.113.7");
    let mut seg = pkt[20..].to_vec();
    let stored = tcp::TcpView::parse(&seg).unwrap().checksum();
    seg[16] = 0;
    seg[17] = 0;
    let recomputed = tcp::compute_checksum(new_src, dst, &seg);
    assert_eq!(stored, recomputed, "TCP checksum valid after SNAT");
    assert_eq!(tcp::TcpView::parse(&pkt[20..]).unwrap().src_port(), 20000);
}

fn udp_packet(src: Ipv4Addr, dst: Ipv4Addr, sp: u16, dp: u16, payload: &[u8]) -> Vec<u8> {
    let mut udp_dg = vec![0u8; udp::UDP_HDR_LEN + payload.len()];
    udp::write_header(&mut udp_dg, sp, dp, payload.len() as u16);
    udp_dg[udp::UDP_HDR_LEN..].copy_from_slice(payload);
    let c = udp::compute_checksum(src, dst, &udp_dg);
    udp_dg[6..8].copy_from_slice(&c.to_be_bytes());

    let mut pkt = vec![0u8; ipv4::IPV4_MIN_HDR_LEN + udp_dg.len()];
    ipv4::write_header(&mut pkt[..20], src, dst, proto::UDP, 64, 1, true, udp_dg.len() as u16);
    pkt[20..].copy_from_slice(&udp_dg);
    pkt
}

#[test]
fn apply_dnat_to_real_udp_packet_keeps_checksums_valid() {
    let src: Ipv4Addr = ip("8.8.8.8");
    let dst: Ipv4Addr = ip("203.0.113.7");
    let payload = b"query";
    let mut pkt = udp_packet(src, dst, 51000, 53, payload);

    // DNAT dst -> 10.0.0.9:5353.
    let rw = Rewrite {
        new_dst_ip: Some(ip("10.0.0.9")),
        new_dst_port: Some(5353),
        ..Default::default()
    };
    apply(&mut pkt, &rw).unwrap();

    let v = Ipv4View::parse(&pkt).unwrap();
    assert!(v.checksum_valid());
    let new_dst: Ipv4Addr = ip("10.0.0.9");
    let mut dg = pkt[20..].to_vec();
    let stored = udp::UdpView::parse(&dg).unwrap().checksum();
    dg[6] = 0;
    dg[7] = 0;
    let recomputed = udp::compute_checksum(src, new_dst, &dg);
    assert_eq!(stored, recomputed);
    assert_eq!(udp::UdpView::parse(&pkt[20..]).unwrap().dst_port(), 5353);
}

#[test]
fn apply_rewrites_the_tuple() {
    let mut pkt = udp_packet(ip("8.8.8.8"), ip("203.0.113.7"), 51000, 53, b"query");
    let rw = Rewrite {
        new_src_ip: Some(ip("1.2.3.4")),
        new_dst_ip: Some(ip("10.0.0.9")),
        new_src_port: Some(1),
        new_dst_port: Some(5353),
    };
    apply(&mut pkt, &rw).unwrap();
    assert_eq!(five_tuple_of(&pkt), Some(tuple("1.2.3.4", 1, "10.0.0.9", 5353, 17)));
    assert!(Ipv4View::parse(&pkt).unwrap().checksum_valid());
}

#[test]
fn apply_reports_what_it_cannot_parse() {
    let rw = Rewrite { new_src_ip: Some(ip("1.2.3.4")), ..Default::default() };
    // Not an IPv4 packet: nothing changes. A rewrite of nothing never fails.
    let mut junk = vec![0u8; 4];
    assert_eq!(
        apply(&mut junk, &rw).err(),
        Some(ParseError::TooShort { what: "ipv4", need: 20, got: 4 })
    );
    assert_eq!(junk, vec![0u8; 4]);
    assert!(apply(&mut junk, &Rewrite::default()).is_ok());
    // A truncated L4 header: the addresses have been rewritten by then.
    let mut cut = udp_packet(ip("8.8.8.8"), ip("203.0.113.7"), 51000, 53, b"");
    cut.truncate(27);
    assert_eq!(
        apply(&mut cut, &rw).err(),
        Some(ParseError::TooShort { what: "udp", need: 8, got: 7 })
    );
    assert_eq!(Ipv4View::parse(&cut).unwrap().src(), ip("1.2.3.4"));
    // Other protocols have their addresses rewritten and no more.
    let mut icmp = udp_packet(ip("8.8.8.8"), ip("203.0.113.7"), 51000, 53, b"abc");
    icmp[9] = proto::ICMP;
    let l4 = icmp[20..].to_vec();
    let all = Rewrite { new_src_port: Some(7), new_dst_port: Some(8), ..rw };
    apply(&mut icmp, &all).unwrap();
    assert_eq!(icmp[20..], l4[..]);
    assert_eq!(Ipv4View::parse(&icmp).unwrap().src(), ip("1.2.3.4"));
}

#[test]
fn flows_never_outnumber_the_ports() {
    let mut nat = NatEngine::new(ip("203.0.113.7"), 20000, 20002);
    for sp in 0..10u16 {
        nat.process(tuple("10.0.0.5", 40000 + sp, "1.1.1.1", 443, proto::TCP), Direction::Outbound, 1);
        assert!(nat.active_bindings() <= 3);
    }
    assert_eq!(nat.active_bindings(), 3);
    assert_eq!(nat.stats().port_exhausted, 7);
}
