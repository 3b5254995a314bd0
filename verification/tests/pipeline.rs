//! The forwarding pipeline.

use andromeda::addr::Ipv4Addr;
use andromeda::afxdp::forwarder::{process, Role};
use andromeda::arp;
use andromeda::control::{Endpoint, Fabric, Vpc};
use andromeda::ethernet;
use andromeda::ethernet::{EthFrame, MacAddr};
use andromeda::ipv4;
use andromeda::ipv4::{proto, Ipv4View};
use andromeda::overlay;
use andromeda::overlay::OVERLAY_OVERHEAD;
use andromeda::pipeline::{flow_hash_of, Decision, FrameSlot, Pipeline, PipelineConfig};
use andromeda::translate::{DnatRule, NatEngine};
use andromeda::udp;
use andromeda::{five_tuple_of, FiveTuple};

fn ip(s: &str) -> Ipv4Addr {
    s.parse().unwrap()
}

fn mac(n: u8) -> MacAddr {
    MacAddr([0x02, 0, 0, 0, 0, n])
}

/// Build an inner Ethernet frame carrying a UDP/IPv4 packet.
fn tenant_udp_frame(src: &str, dst: &str, sport: u16, dport: u16, payload: &[u8]) -> Vec<u8> {
    let src: Ipv4Addr = ip(src);
    let dst: Ipv4Addr = ip(dst);
    let mut udp_dg = vec![0u8; udp::UDP_HDR_LEN + payload.len()];
    udp::write_header(&mut udp_dg, sport, dport, payload.len() as u16);
    udp_dg[udp::UDP_HDR_LEN..].copy_from_slice(payload);
    let c = udp::compute_checksum(src, dst, &udp_dg);
    udp_dg[6..8].copy_from_slice(&c.to_be_bytes());

    let mut ippkt = vec![0u8; ipv4::IPV4_MIN_HDR_LEN + udp_dg.len()];
    ipv4::write_header(&mut ippkt[..20], src, dst, proto::UDP, 64, 1, true, udp_dg.len() as u16);
    ippkt[20..].copy_from_slice(&udp_dg);

    let mut frame = vec![0u8; ethernet::ETH_HDR_LEN + ippkt.len()];
    ethernet::write_header(&mut frame[..14], mac(0xbb), mac(0xaa), ethernet::ethertype::IPV4);
    frame[14..].copy_from_slice(&ippkt);
    frame
}

fn config() -> PipelineConfig {
    PipelineConfig {
        local_node_ip: ip("192.168.1.1"),
        outer_src_mac: mac(0x01),
        outer_dst_mac: mac(0x02),
        vni: 100,
        nat_ip: None,
        gateway_node_ip: None,
        virtual_gateway_mac: mac(0xff),
        outer_udp_checksum: false,
    }
}

fn two_node_pipeline_with(cfg: PipelineConfig) -> Pipeline {
    let mut fabric = Fabric::new(ip("192.168.1.1"));
    fabric.add_vpc(Vpc { vni: 100, name: "t".into(), cidr: (ip("10.0.0.0"), 24) });
    fabric.add_endpoint(Endpoint {
        vni: 100,
        inner_ip: ip("10.0.0.20"),
        inner_mac: mac(0x20),
        node_ip: ip("192.168.1.2"),
        local: false,
    });
    let nat = NatEngine::new(ip("203.0.113.7"), 20000, 20100);
    Pipeline::new(cfg, fabric, nat)
}

fn two_node_pipeline() -> Pipeline {
    two_node_pipeline_with(config())
}

fn gateway_pipeline() -> Pipeline {
    two_node_pipeline_with(PipelineConfig {
        gateway_node_ip: Some(ip("192.168.1.254")),
        nat_ip: Some(ip("203.0.113.7")),
        ..config()
    })
}

#[test]
fn east_west_encap_then_peer_decap_roundtrips() {
    let mut node1 = two_node_pipeline();
    let frame = tenant_udp_frame("10.0.0.10", "10.0.0.20", 1111, 2222, b"east-west");

    let mut wire = vec![0u8; 2048];
    let n = match node1.on_tenant_frame(&frame, &mut wire, 1) {
        Decision::Forward(n) => n,
        other => panic!("expected Forward, got {other:?}"),
    };
    // The encapsulated packet is Andromeda traffic on the wire.
    assert!(overlay::decap(&wire[..n]).unwrap().is_some());

    // Peer node (same VNI) decapsulates and recovers the inner frame with the
    // inner destination MAC rewritten to the resolved endpoint.
    let mut node2 = two_node_pipeline();
    let mut delivered = vec![0u8; 2048];
    let m = match node2.on_underlay_frame(&wire[..n], &mut delivered, 2) {
        Decision::Forward(m) => m,
        other => panic!("expected Forward, got {other:?}"),
    };
    let eth = EthFrame::parse(&delivered[..m]).unwrap();
    assert_eq!(eth.dst(), mac(0x20), "inner dst MAC rewritten to endpoint");
    let ip4 = Ipv4View::parse(eth.payload()).unwrap();
    assert_eq!(ip4.dst(), ip("10.0.0.20"));
    assert!(ip4.checksum_valid());
    assert_eq!(node1.stats().encapped, 1);
    assert_eq!(node2.stats().decapped, 1);
    // Everything but the destination MAC is as it was sent.
    assert_eq!(delivered[6..m], frame[6..]);
}

#[test]
fn unknown_destination_without_gateway_drops() {
    let mut node1 = two_node_pipeline();
    let frame = tenant_udp_frame("10.0.0.10", "10.0.0.99", 1, 2, b"x");
    let mut wire = vec![0u8; 2048];
    assert!(matches!(
        node1.on_tenant_frame(&frame, &mut wire, 1),
        Decision::Drop("no-route")
    ));
    assert_eq!(wire, vec![0u8; 2048]);
    assert_eq!(node1.stats().dropped, 1);
}

#[test]
fn egress_to_gateway_applies_snat() {
    // Configure a gateway + NAT; destination outside the VPC → SNAT + encap to gw.
    let mut p = gateway_pipeline();

    let frame = tenant_udp_frame("10.0.0.10", "8.8.8.8", 40000, 53, b"dns");
    let mut wire = vec![0u8; 2048];
    let n = match p.on_tenant_frame(&frame, &mut wire, 1) {
        Decision::Forward(n) => n,
        other => panic!("got {other:?}"),
    };
    assert_eq!(p.stats().natted, 1);

    // Decap and confirm the inner source was rewritten to the NAT address.
    let d = overlay::decap(&wire[..n]).unwrap().unwrap();
    let inner = Ipv4View::parse(&d.inner[ethernet::ETH_HDR_LEN..]).unwrap();
    assert_eq!(inner.src(), ip("203.0.113.7"));
    assert!(inner.checksum_valid());
    assert_eq!(d.outer_dst_ip, ip("192.168.1.254"));
    // The flow hash is that of the packet as it goes out.
    assert_eq!(d.header.flow_hash, flow_hash_of(&inner));
    assert_eq!(
        d.header.flow_hash,
        overlay::flow_hash(ip("203.0.113.7"), ip("8.8.8.8"), 17, 20000, 53)
    );
}

#[test]
fn snat_reply_comes_back() {
    let mut p = gateway_pipeline();
    let frame = tenant_udp_frame("10.0.0.10", "8.8.8.8", 40000, 53, b"dns");
    let mut wire = vec![0u8; 2048];
    assert!(matches!(p.on_tenant_frame(&frame, &mut wire, 1), Decision::Forward(_)));

    // The gateway sends the reply to the address and port that the flow was given.
    let reply = tenant_udp_frame("8.8.8.8", "203.0.113.7", 53, 20000, b"answer");
    let params = overlay::EncapParams {
        outer_src_mac: mac(2),
        outer_dst_mac: mac(1),
        outer_src_ip: ip("192.168.1.254"),
        outer_dst_ip: ip("192.168.1.1"),
        vni: 100,
        flow_hash: 0,
        ip_id: 0,
        outer_udp_checksum: true,
    };
    let n = overlay::encap(&mut wire, &reply, &params).unwrap();
    let mut out = vec![0u8; 2048];
    let m = match p.on_underlay_frame(&wire[..n], &mut out, 2) {
        Decision::Forward(m) => m,
        other => panic!("got {other:?}"),
    };
    assert_eq!(
        five_tuple_of(&out[14..m]),
        Some(FiveTuple {
            src_ip: ip("8.8.8.8"),
            dst_ip: ip("10.0.0.10"),
            protocol: 17,
            src_port: 53,
            dst_port: 40000,
        })
    );
    assert_eq!(p.stats().natted, 2);
    assert_eq!(p.nat.stats().reversed, 1);
    // Once collected, the flow is forgotten.
    assert_eq!(p.gc(1_000_000, 10), 1);
    assert_eq!(p.nat.active_bindings(), 0);
}

fn arp_request(asker: Ipv4Addr, asked: Ipv4Addr) -> Vec<u8> {
    let mut req = vec![0u8; arp::ARP_FRAME_LEN];
    ethernet::write_header(
        &mut req[..14],
        MacAddr::broadcast(),
        mac(0x0a),
        ethernet::ethertype::ARP,
    );
    let pl = &mut req[14..];
    pl[0..2].copy_from_slice(&1u16.to_be_bytes());
    pl[2..4].copy_from_slice(&ethernet::ethertype::IPV4.to_be_bytes());
    pl[4] = 6;
    pl[5] = 4;
    pl[6..8].copy_from_slice(&arp::oper::REQUEST.to_be_bytes());
    pl[8..14].copy_from_slice(&mac(0x0a).0);
    pl[14..18].copy_from_slice(&asker.octets());
    pl[24..28].copy_from_slice(&asked.octets());
    req
}

#[test]
fn proxy_arp_replies_to_tenant() {
    let mut p = two_node_pipeline();
    // Tenant 10.0.0.10 asks "who has 10.0.0.20?"
    let req = arp_request(Ipv4Addr::new(10, 0, 0, 10), Ipv4Addr::new(10, 0, 0, 20));

    let mut out = vec![0u8; 128];
    match p.on_tenant_frame(&req, &mut out, 1) {
        Decision::Reply(n) => {
            let eth = EthFrame::parse(&out[..n]).unwrap();
            assert_eq!(eth.ethertype(), ethernet::ethertype::ARP);
            assert_eq!(eth.dst(), mac(0x0a)); // replied to the requester
            let a = arp::ArpView::parse(eth.payload()).unwrap();
            assert_eq!(a.oper(), arp::oper::REPLY);
            assert_eq!(a.sender_mac(), mac(0xff)); // virtual gateway MAC
        }
        other => panic!("expected Reply, got {other:?}"),
    }
    assert_eq!(p.stats().arp_replied, 1);
}

#[test]
fn foreign_frame_passes() {
    let mut p = two_node_pipeline();
    // A plain (non-encapsulated) IPv4/UDP frame to some random port → Pass.
    let frame = tenant_udp_frame("1.2.3.4", "5.6.7.8", 1, 2, b"z");
    let mut out = vec![0u8; 2048];
    assert_eq!(p.on_underlay_frame(&frame, &mut out, 1), Decision::Pass);
    assert_eq!(p.stats().passed, 1);
}

#[test]
fn every_tenant_drop_has_its_reason() {
    let mut p = two_node_pipeline();
    let mut out = vec![0u8; 2048];
    let good = tenant_udp_frame("10.0.0.10", "10.0.0.20", 1, 2, b"x");
    assert_eq!(p.on_tenant_frame(&good[..13], &mut out, 1), Decision::Drop("bad-inner-eth"));
    let mut v6 = good.clone();
    v6[12] = 0x86;
    assert_eq!(p.on_tenant_frame(&v6, &mut out, 1), Decision::Drop("non-ipv4-inner"));
    assert_eq!(p.on_tenant_frame(&good[..20], &mut out, 1), Decision::Drop("bad-inner-ip"));
    assert_eq!(
        p.on_tenant_frame(&good, &mut out[..good.len() + 49], 1),
        Decision::Drop("encap-out-too-small")
    );
    // A gratuitous ARP asks for its own address; a reply asks nothing.
    let own = arp_request(ip("10.0.0.10"), ip("10.0.0.10"));
    assert_eq!(p.on_tenant_frame(&own, &mut out, 1), Decision::Drop("arp-ignored"));
    let mut reply = arp_request(ip("10.0.0.10"), ip("10.0.0.20"));
    reply[21] = 2;
    assert_eq!(p.on_tenant_frame(&reply, &mut out, 1), Decision::Drop("arp-ignored"));
    assert_eq!(p.on_tenant_frame(&reply[..20], &mut out, 1), Decision::Drop("arp-ignored"));
    let ask = arp_request(ip("10.0.0.10"), ip("10.0.0.20"));
    assert_eq!(p.on_tenant_frame(&ask, &mut out[..41], 1), Decision::Drop("arp-build"));
    assert_eq!(p.stats().dropped, 8);
    assert_eq!(out, vec![0u8; 2048]);
}

#[test]
fn every_underlay_drop_has_its_reason() {
    let mut p = two_node_pipeline();
    let good = tenant_udp_frame("10.0.0.10", "10.0.0.20", 1, 2, b"x");
    let mut wire = vec![0u8; 2048];
    let n = match p.on_tenant_frame(&good, &mut wire, 1) {
        Decision::Forward(n) => n,
        other => panic!("got {other:?}"),
    };
    let mut out = vec![0u8; 2048];
    assert_eq!(p.on_underlay_frame(&wire[..13], &mut out, 1), Decision::Drop("bad-encap"));
    assert_eq!(
        p.on_underlay_frame(&wire[..n], &mut out[..good.len() - 1], 1),
        Decision::Drop("decap-out-too-small")
    );
    let mut other = two_node_pipeline_with(PipelineConfig { vni: 200, ..config() });
    assert_eq!(other.on_underlay_frame(&wire[..n], &mut out, 1), Decision::Drop("wrong-vni"));
    assert_eq!(out, vec![0u8; 2048]);
    assert_eq!(other.config().vni, 200);
}

#[test]
fn copy_and_zero_copy_paths_agree() {
    let frames = [
        tenant_udp_frame("10.0.0.10", "10.0.0.20", 1111, 2222, b"east-west"),
        tenant_udp_frame("10.0.0.10", "8.8.8.8", 40000, 53, b"dns"),
        arp_request(ip("10.0.0.10"), ip("10.0.0.20")),
        vec![1, 2, 3],
    ];
    let mut copy = gateway_pipeline();
    let mut in_place = gateway_pipeline();
    for (i, f) in frames.iter().enumerate() {
        let mut out = vec![0u8; 2048];
        let a = copy.on_tenant_frame(f, &mut out, i as u64);
        let mut buf = vec![0xa5u8; 2048];
        buf[OVERLAY_OVERHEAD..OVERLAY_OVERHEAD + f.len()].copy_from_slice(f);
        let b = in_place.on_tenant_frame_inplace(&mut buf, f.len(), i as u64);
        assert_eq!(a, b);
        if let Decision::Forward(n) | Decision::Reply(n) = a {
            assert_eq!(out[..n], buf[..n]);
        }
    }
    assert_eq!(copy.stats().encapped, 2);
    assert_eq!(in_place.stats().encapped, 2);
    let mut tiny = [0u8; 60];
    assert_eq!(
        in_place.on_tenant_frame_inplace(&mut tiny, 11, 9),
        Decision::Drop("encap-out-too-small")
    );
}

#[test]
fn batches_handle_each_slot_in_turn() {
    let f = tenant_udp_frame("10.0.0.10", "10.0.0.20", 1111, 2222, b"east-west");
    let ask = arp_request(ip("10.0.0.10"), ip("10.0.0.20"));
    let mut buf = vec![0u8; 4096];
    buf[50..50 + f.len()].copy_from_slice(&f);
    buf[2098..2098 + ask.len()].copy_from_slice(&ask);
    let slots = [
        FrameSlot { offset: 0, inner_len: f.len() },
        FrameSlot { offset: 2048, inner_len: ask.len() },
        FrameSlot { offset: 5000, inner_len: 1 },
    ];
    let mut p = two_node_pipeline();
    let got = p.encap_batch_inplace(&mut buf, &slots, 7);
    assert_eq!(
        got,
        vec![
            Decision::Forward(50 + f.len()),
            Decision::Reply(42),
            Decision::Drop("encap-out-too-small")
        ]
    );
    let mut alone = two_node_pipeline();
    let mut out = vec![0u8; 2048];
    alone.on_tenant_frame(&f, &mut out, 7);
    assert_eq!(buf[..50 + f.len()], out[..50 + f.len()]);
}

#[test]
fn other_networks_are_encapsulated_under_their_own_id() {
    let mut p = two_node_pipeline();
    p.fabric.add_endpoint(Endpoint {
        vni: 200,
        inner_ip: ip("10.0.0.20"),
        inner_mac: mac(0x66),
        node_ip: ip("192.168.1.3"),
        local: false,
    });
    let f = tenant_udp_frame("10.0.0.10", "10.0.0.20", 1, 2, b"x");
    let mut out = vec![0u8; 2048];
    let n = match p.encap_for_vni(&f, &mut out, 1, 200) {
        Decision::Forward(n) => n,
        other => panic!("got {other:?}"),
    };
    let d = overlay::decap(&out[..n]).unwrap().unwrap();
    assert_eq!(d.header.vni, 200);
    assert_eq!(d.outer_dst_ip, ip("192.168.1.3"));
    assert_eq!(d.inner[..6], mac(0x66).0);
    assert_eq!(p.encap_for_vni(&f, &mut out, 1, 300), Decision::Drop("no-route"));
}

#[test]
fn identification_counts_up_and_outer_checksum_is_optional() {
    let f = tenant_udp_frame("10.0.0.10", "10.0.0.20", 1, 2, b"x");
    let mut p = two_node_pipeline_with(PipelineConfig { outer_udp_checksum: true, ..config() });
    let mut out = vec![0u8; 2048];
    for id in 1..4u16 {
        assert!(matches!(p.on_tenant_frame(&f, &mut out, 1), Decision::Forward(_)));
        let outer = Ipv4View::parse(&out[14..50 + f.len()]).unwrap();
        assert_eq!(outer.identification(), id);
        assert_ne!(udp::UdpView::parse(outer.payload()).unwrap().checksum(), 0);
    }
    let mut q = two_node_pipeline();
    q.on_tenant_frame(&f, &mut out, 1);
    assert_eq!(out[40..42], [0, 0]);
}

#[test]
fn every_frame_is_counted_once() {
    let mut p = two_node_pipeline_with(config());
    let mut out = vec![0u8; 256];
    let known = tenant_udp_frame("10.0.0.10", "10.0.0.20", 1, 2, b"x");
    let unknown = tenant_udp_frame("10.0.0.10", "10.0.0.99", 1, 2, b"x");
    assert!(matches!(p.on_tenant_frame(&known, &mut out, 1), Decision::Forward(_)));
    assert!(matches!(p.on_tenant_frame(&unknown, &mut out, 1), Decision::Drop(_)));
    let s = p.stats();
    assert_eq!((s.encapped, s.arp_replied, s.dropped, s.decapped, s.passed), (1, 0, 1, 0, 0));
    // Plain traffic on the underlay is not ours.
    assert!(matches!(p.on_underlay_frame(&known, &mut out, 1), Decision::Pass));
    let s = p.stats();
    assert_eq!((s.encapped, s.arp_replied, s.dropped, s.decapped, s.passed), (1, 0, 1, 0, 1));
}

#[test]
fn networks_endpoints_and_rules_can_be_added() {
    let mut cfg = config();
    cfg.nat_ip = Some(ip("203.0.113.7"));
    let mut p = two_node_pipeline_with(cfg);
    let mut out = vec![0u8; 256];

    let frame = tenant_udp_frame("10.0.0.10", "10.0.0.30", 1, 2, b"x");
    assert_eq!(p.on_tenant_frame(&frame, &mut out, 1), Decision::Drop("no-route"));
    p.add_endpoint(Endpoint {
        vni: 100,
        inner_ip: ip("10.0.0.30"),
        inner_mac: mac(0x30),
        node_ip: ip("192.168.1.3"),
        local: false,
    });
    assert!(matches!(p.on_tenant_frame(&frame, &mut out, 1), Decision::Forward(_)));

    p.add_vpc(Vpc { vni: 200, name: "u".into(), cidr: (ip("10.1.0.0"), 16) });
    assert!(p.fabric.vpc(200).unwrap().contains(ip("10.1.2.3")));

    // A packet to a forwarded port is delivered to the server behind it.
    p.add_dnat_rule(DnatRule {
        protocol: proto::UDP,
        ext_port: 53,
        to_ip: ip("10.0.0.9"),
        to_port: 5353,
    });
    let query = tenant_udp_frame("8.8.8.8", "203.0.113.7", 999, 53, b"q");
    let params = overlay::EncapParams {
        outer_src_mac: mac(1),
        outer_dst_mac: mac(2),
        outer_src_ip: ip("192.168.1.2"),
        outer_dst_ip: ip("192.168.1.1"),
        vni: 100,
        flow_hash: 0,
        ip_id: 1,
        outer_udp_checksum: false,
    };
    let mut wire = vec![0u8; OVERLAY_OVERHEAD + query.len()];
    overlay::encap(&mut wire, &query, &params).unwrap();
    assert_eq!(p.on_underlay_frame(&wire, &mut out, 2), Decision::Forward(query.len()));
    let t = five_tuple_of(&out[14..query.len()]).unwrap();
    assert_eq!((t.dst_ip, t.dst_port), (ip("10.0.0.9"), 5353));
}

#[test]
fn an_established_flow_gets_its_reply_after_collection() {
    let mut cfg = config();
    cfg.nat_ip = Some(ip("203.0.113.7"));
    cfg.gateway_node_ip = Some(ip("192.168.1.254"));
    let mut p = two_node_pipeline_with(cfg);
    let mut out = vec![0u8; 256];
    let query = tenant_udp_frame("10.0.0.10", "8.8.8.8", 40000, 53, b"q");
    assert!(matches!(p.on_tenant_frame(&query, &mut out, 0), Decision::Forward(_)));
    assert!(matches!(p.on_tenant_frame(&query, &mut out, 100), Decision::Forward(_)));
    assert_eq!(p.gc(120, 50), 0);

    let reply = tenant_udp_frame("8.8.8.8", "203.0.113.7", 53, 20000, b"r");
    let params = overlay::EncapParams {
        outer_src_mac: mac(1),
        outer_dst_mac: mac(2),
        outer_src_ip: ip("192.168.1.254"),
        outer_dst_ip: ip("192.168.1.1"),
        vni: 100,
        flow_hash: 0,
        ip_id: 1,
        outer_udp_checksum: false,
    };
    let mut wire = vec![0u8; OVERLAY_OVERHEAD + reply.len()];
    overlay::encap(&mut wire, &reply, &params).unwrap();
    assert_eq!(p.on_underlay_frame(&wire, &mut out, 121), Decision::Forward(reply.len()));
    let t = five_tuple_of(&out[14..reply.len()]).unwrap();
    assert_eq!((t.dst_ip, t.dst_port), (ip("10.0.0.10"), 40000));
}

#[test]
fn the_role_of_a_frame_decides_its_way() {
    let frame = tenant_udp_frame("10.0.0.10", "10.0.0.20", 1, 2, b"x");
    let n = frame.len();
    let mut out = vec![0u8; 256];
    let mut wire = Vec::new();
    for role in [Role::Encap, Role::Tenant] {
        let mut p = two_node_pipeline_with(config());
        assert_eq!(
            process(role, &mut p, &frame, &mut out, 1),
            Decision::Forward(n + OVERLAY_OVERHEAD)
        );
        wire = out[..n + OVERLAY_OVERHEAD].to_vec();
    }
    for role in [Role::Decap, Role::Underlay, Role::Dump] {
        let mut p = two_node_pipeline_with(config());
        assert_eq!(process(role, &mut p, &frame, &mut out, 1), Decision::Pass);
        assert_eq!(process(role, &mut p, &wire, &mut out, 1), Decision::Forward(n));
    }
}
