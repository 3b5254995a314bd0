//! Wire formats: checksums, Ethernet, ARP, IPv4, UDP, TCP and the overlay.

use andromeda::addr::Ipv4Addr;
use andromeda::arp;
use andromeda::arp::{ArpView, ARP_FRAME_LEN};
use andromeda::checksum::{accumulate, checksum, finalize, fold, sum_be16, update_dword, update_word};
use andromeda::ethernet;
use andromeda::ethernet::{ethertype, EthFrame, EthFrameMut, MacAddr, ETH_HDR_LEN};
use andromeda::ipv4;
use andromeda::ipv4::{proto, Ipv4View, Ipv4ViewMut};
use andromeda::overlay;
use andromeda::overlay::{
    decap, encap, encap_in_place, flags, flow_hash, inner_proto, AndromedaHdr, EncapParams,
    ANDROMEDA_UDP_PORT, OVERLAY_OVERHEAD,
};
use andromeda::tcp;
use andromeda::tcp::{flag, TcpView, TcpViewMut};
use andromeda::udp;
use andromeda::udp::{UdpView, UdpViewMut, UDP_HDR_LEN};
use andromeda::{five_tuple_of, FiveTuple, ParseError};

fn ip(s: &str) -> Ipv4Addr {
    s.parse().unwrap()
}

// ---- checksum ---------------------------------------------------------------

#[test]
fn rfc1071_known_vector() {
    // Classic worked example from the checksum literature. Summing these
    // 16-bit words and taking the one's complement yields 0x220d.
    let data = [0x00u8, 0x01, 0xf2, 0x03, 0xf4, 0xf5, 0xf6, 0xf7];
    assert_eq!(checksum(&data), 0x220d);
}

#[test]
fn checksum_verifies_to_zero() {
    // A valid checksum, when included in the summed data, makes the running
    // sum fold to 0xffff (i.e. checksum-of-the-whole == 0).
    let mut data = vec![
        0x45u8, 0x00, 0x00, 0x3c, 0x1c, 0x46, 0x40, 0x00, 0x40, 0x06, 0x00, 0x00, 0xac, 0x10, 0x0a,
        0x63, 0xac, 0x10, 0x0a, 0x0c,
    ];
    let c = checksum(&data);
    data[10] = (c >> 8) as u8;
    data[11] = (c & 0xff) as u8;
    assert_eq!(checksum(&data), 0, "recomputing over data incl. checksum must be 0");
}

#[test]
fn odd_length_uses_high_byte() {
    // A trailing odd byte is the high byte of the final word.
    assert_eq!(sum_be16(&[0x12, 0x34, 0x56]), 0x1234 + 0x5600);
}

#[test]
fn incremental_matches_full_recompute() {
    // Build an IPv4-ish header, checksum it, mutate a 32-bit field, and show
    // the incremental update equals a from-scratch recompute.
    let mut hdr = [
        0x45u8, 0x00, 0x00, 0x3c, 0x1c, 0x46, 0x40, 0x00, 0x40, 0x06, 0x00, 0x00, 0xac, 0x10, 0x0a,
        0x63, 0xac, 0x10, 0x0a, 0x0c,
    ];
    let c0 = checksum(&hdr);
    hdr[10] = (c0 >> 8) as u8;
    hdr[11] = (c0 & 0xff) as u8;

    // Change source address 172.16.10.99 -> 10.0.0.7 (SNAT-style rewrite).
    let old_src = u32::from_be_bytes([hdr[12], hdr[13], hdr[14], hdr[15]]);
    let new_src = u32::from_be_bytes([10, 0, 0, 7]);
    hdr[12..16].copy_from_slice(&new_src.to_be_bytes());

    let incremental = update_dword(c0, old_src, new_src);

    // Full recompute for comparison (zero the field first).
    hdr[10] = 0;
    hdr[11] = 0;
    let full = checksum(&hdr);
    assert_eq!(incremental, full, "incremental update must equal full recompute");
}

#[test]
fn accumulation_goes_on_across_regions() {
    let a = [0x12u8, 0x34, 0x56, 0x78];
    let b = [0x9au8, 0xbc];
    let acc = accumulate(sum_be16(&a), &b);
    assert_eq!(acc, 0x1234 + 0x5678 + 0x9abc);
    assert_eq!(finalize(acc), checksum(&[0x12, 0x34, 0x56, 0x78, 0x9a, 0xbc]));
    assert_eq!(fold(0x0002_fffe), 0x0001);
    assert_eq!(fold(0xffff), 0xffff);
    assert_eq!(fold(0), 0);
}

#[test]
fn zero_has_two_forms() {
    // When everything covered becomes zero, the update gives one form of zero and the
    // recomputation the other.
    let data = [0x00u8, 0x01];
    assert_eq!(update_word(checksum(&data), 1, 0), 0x0000);
    assert_eq!(checksum(&[0, 0]), 0xffff);
}

// ---- ethernet ---------------------------------------------------------------

fn sample() -> Vec<u8> {
    let mut v = vec![
        0x02, 0x00, 0x00, 0x00, 0x00, 0x02, // dst
        0x02, 0x00, 0x00, 0x00, 0x00, 0x01, // src
        0x08, 0x00, // ipv4
    ];
    v.extend_from_slice(&[0xde, 0xad, 0xbe, 0xef]); // payload
    v
}

#[test]
fn parse_fields() {
    let v = sample();
    let f = EthFrame::parse(&v).unwrap();
    assert_eq!(f.dst(), MacAddr([0x02, 0, 0, 0, 0, 0x02]));
    assert_eq!(f.src(), MacAddr([0x02, 0, 0, 0, 0, 0x01]));
    assert_eq!(f.ethertype(), ethertype::IPV4);
    assert_eq!(f.payload(), &[0xde, 0xad, 0xbe, 0xef]);
    assert_eq!(f.bytes(), &v[..]);
}

#[test]
fn too_short_rejected() {
    assert!(EthFrame::parse(&[0u8; 13]).is_err());
    assert_eq!(
        EthFrame::parse(&[0u8; 13]).err(),
        Some(ParseError::TooShort { what: "ethernet", need: 14, got: 13 })
    );
}

#[test]
fn mac_display_and_flags() {
    assert_eq!(
        MacAddr([0x02, 0xaa, 0xbb, 0xcc, 0xdd, 0xee]).to_string(),
        "02:aa:bb:cc:dd:ee"
    );
    assert!(MacAddr::broadcast().is_broadcast());
    assert!(MacAddr::broadcast().is_multicast());
    assert!(!MacAddr([0x02, 0, 0, 0, 0, 1]).is_multicast());
}

#[test]
fn mac_from_str() {
    assert_eq!(
        "02:aa:bb:cc:dd:ee".parse::<MacAddr>().unwrap(),
        MacAddr([0x02, 0xaa, 0xbb, 0xcc, 0xdd, 0xee])
    );
    assert_eq!(
        "02-00-00-00-00-01".parse::<MacAddr>().unwrap(),
        MacAddr([0x02, 0, 0, 0, 0, 1])
    );
    assert!("02:aa:bb".parse::<MacAddr>().is_err());
    assert!("zz:aa:bb:cc:dd:ee".parse::<MacAddr>().is_err());
    assert!("02:aa:bb:cc:dd:ee:ff".parse::<MacAddr>().is_err());
}

#[test]
fn mac_text_edge_cases() {
    // One digit is enough, upper case is fine, separators may be mixed.
    assert_eq!("2:A:b-C:d:E".parse::<MacAddr>().unwrap(), MacAddr([2, 10, 11, 12, 13, 14]));
    assert_eq!("+2:0:0:0:0:ff".parse::<MacAddr>().unwrap(), MacAddr([2, 0, 0, 0, 0, 255]));
    assert_eq!("002:0:0:0:0:0".parse::<MacAddr>().unwrap(), MacAddr([2, 0, 0, 0, 0, 0]));
    let err = "100:0:0:0:0:0".parse::<MacAddr>().unwrap_err();
    assert_eq!(err.to_string(), "invalid MAC address (expected aa:bb:cc:dd:ee:ff)");
    assert!("".parse::<MacAddr>().is_err());
    assert!("02:aa:bb:cc:dd:".parse::<MacAddr>().is_err());
    assert_eq!(MacAddr::default(), MacAddr::zero());
    // What is written is read back.
    let m = MacAddr([0x00, 0x0f, 0xf0, 0x9a, 0xa9, 0xff]);
    assert_eq!(m.to_string().parse::<MacAddr>().unwrap(), m);
}

#[test]
fn write_roundtrip() {
    let mut buf = [0u8; 14];
    ethernet::write_header(
        &mut buf,
        MacAddr::broadcast(),
        MacAddr([2, 0, 0, 0, 0, 1]),
        ethertype::ARP,
    );
    let f = EthFrame::parse(&buf).unwrap();
    assert_eq!(f.dst(), MacAddr::broadcast());
    assert_eq!(f.ethertype(), ethertype::ARP);
}

#[test]
fn ethernet_in_place() {
    let mut v = sample();
    {
        let mut f = EthFrameMut::parse(&mut v).unwrap();
        f.set_dst(MacAddr([1, 2, 3, 4, 5, 6]));
        f.set_src(MacAddr([7, 8, 9, 10, 11, 12]));
        f.set_ethertype(ethertype::IPV6);
        f.payload_mut()[0] = 0xff;
    }
    assert_eq!(
        v,
        [1, 2, 3, 4, 5, 6, 7, 8, 9, 10, 11, 12, 0x86, 0xdd, 0xff, 0xad, 0xbe, 0xef]
    );
    assert!(EthFrameMut::parse(&mut [0u8; 3]).is_err());
}

// ---- addresses --------------------------------------------------------------

#[test]
fn ipv4_text() {
    assert_eq!(ip("172.16.10.99"), Ipv4Addr::new(172, 16, 10, 99));
    assert_eq!(ip("0.0.0.0").bits, 0);
    assert_eq!(ip("255.255.255.255").bits, u32::MAX);
    assert_eq!(Ipv4Addr::new(10, 0, 0, 7).bits, 0x0a00_0007);
    assert_eq!(Ipv4Addr::new(10, 0, 200, 7).octets(), [10, 0, 200, 7]);
    for bad in [
        "", "1.2.3", "1.2.3.4.5", "256.1.1.1", "01.2.3.4", "1.2.3.+4", "1.2.3.", "a.b.c.d", " 1.2.3.4",
        "1.2.3.0004",
    ] {
        assert!(bad.parse::<Ipv4Addr>().is_err(), "{bad:?}");
    }
    for a in [Ipv4Addr::new(0, 0, 0, 0), Ipv4Addr::new(9, 10, 99, 100), Ipv4Addr::new(255, 1, 0, 20)] {
        assert_eq!(ip(&a.to_string()), a);
    }
    assert_eq!(Ipv4Addr::new(9, 10, 99, 100).to_string(), "9.10.99.100");
}

// ---- arp --------------------------------------------------------------------

fn arp_request(sender_mac: MacAddr, sender_ip: Ipv4Addr, target_ip: Ipv4Addr) -> Vec<u8> {
    let mut f = vec![0u8; ARP_FRAME_LEN];
    ethernet::write_header(&mut f[..14], MacAddr::broadcast(), sender_mac, ethertype::ARP);
    let p = &mut f[14..];
    p[0..2].copy_from_slice(&1u16.to_be_bytes());
    p[2..4].copy_from_slice(&ethertype::IPV4.to_be_bytes());
    p[4] = 6;
    p[5] = 4;
    p[6..8].copy_from_slice(&arp::oper::REQUEST.to_be_bytes());
    p[8..14].copy_from_slice(&sender_mac.0);
    p[14..18].copy_from_slice(&sender_ip.octets());
    // target HW unknown (zero)
    p[24..28].copy_from_slice(&target_ip.octets());
    f
}

#[test]
fn parse_request_fields() {
    let f = arp_request(MacAddr([0x02, 0, 0, 0, 0, 0x0a]), ip("10.0.0.10"), ip("10.0.0.20"));
    let a = ArpView::parse(&f[14..]).unwrap();
    assert!(a.is_request());
    assert_eq!(a.sender_ip(), ip("10.0.0.10"));
    assert_eq!(a.target_ip(), ip("10.0.0.20"));
}

#[test]
fn reply_is_well_formed() {
    let req = arp_request(MacAddr([0x02, 0, 0, 0, 0, 0x0a]), ip("10.0.0.10"), ip("10.0.0.20"));
    let vmac = MacAddr([0x02, 0, 0, 0, 0, 0xff]);
    let mut out = vec![0u8; 64];
    let n = arp::write_reply(&mut out, &req[14..], vmac).unwrap();
    assert_eq!(n, ARP_FRAME_LEN);

    let eth = EthFrame::parse(&out[..n]).unwrap();
    assert_eq!(eth.ethertype(), ethertype::ARP);
    assert_eq!(eth.dst(), MacAddr([0x02, 0, 0, 0, 0, 0x0a])); // back to requester
    assert_eq!(eth.src(), vmac);

    let a = ArpView::parse(eth.payload()).unwrap();
    assert_eq!(a.oper(), arp::oper::REPLY);
    assert_eq!(a.sender_mac(), vmac);
    assert_eq!(a.sender_ip(), ip("10.0.0.20")); // answering for the asked IP
    assert_eq!(a.target_ip(), ip("10.0.0.10"));
}

#[test]
fn arp_errors() {
    let good = arp_request(MacAddr([2, 0, 0, 0, 0, 1]), ip("10.0.0.1"), ip("10.0.0.2"));
    let p = &good[14..];
    assert_eq!(
        ArpView::parse(&p[..27]).err(),
        Some(ParseError::TooShort { what: "arp", need: 28, got: 27 })
    );
    for at in [1usize, 2, 4, 5] {
        let mut bad = p.to_vec();
        bad[at] ^= 0x80;
        assert_eq!(
            ArpView::parse(&bad).err(),
            Some(ParseError::BadHeaderLen { what: "arp", len: 28 })
        );
    }
    let mut small = [7u8; 41];
    assert_eq!(
        arp::write_reply(&mut small, p, MacAddr::zero()).err(),
        Some(ParseError::BufferTooSmall { need: 42, got: 41 })
    );
    assert_eq!(small, [7u8; 41]);
    let mut out = [7u8; 42];
    assert!(arp::write_reply(&mut out, &p[..5], MacAddr::zero()).is_err());
    assert_eq!(out, [7u8; 42]);
}

// ---- ipv4 -------------------------------------------------------------------

fn real_packet() -> Vec<u8> {
    // 172.16.10.99 -> 172.16.10.12, TCP, DF, ttl 64, id 0x1c46.
    vec![
        0x45, 0x00, 0x00, 0x3c, 0x1c, 0x46, 0x40, 0x00, 0x40, 0x06, 0xb1, 0xe6, 0xac, 0x10, 0x0a,
        0x63, 0xac, 0x10, 0x0a, 0x0c,
    ]
}

#[test]
fn parses_real_header() {
    let p = real_packet();
    let v = Ipv4View::parse(&p).unwrap();
    assert_eq!(v.ihl_bytes(), 20);
    assert_eq!(v.total_length(), 0x3c);
    assert_eq!(v.ttl(), 64);
    assert_eq!(v.protocol(), proto::TCP);
    assert!(v.dont_fragment());
    assert!(!v.more_fragments());
    assert_eq!(v.src(), Ipv4Addr::new(172, 16, 10, 99));
    assert_eq!(v.dst(), Ipv4Addr::new(172, 16, 10, 12));
    assert!(v.checksum_valid(), "known-good packet must verify");
    assert_eq!(v.identification(), 0x1c46);
    assert_eq!(v.flags_frag(), 0x4000);
    assert_eq!(v.fragment_offset(), 0);
    assert_eq!(v.dscp_ecn(), 0);
    assert_eq!(v.header_checksum(), 0xb1e6);
    assert!(v.payload().is_empty());
}

#[test]
fn snat_keeps_header_checksum_valid() {
    let mut p = real_packet();
    {
        let mut v = Ipv4ViewMut::parse(&mut p).unwrap();
        v.set_src(Ipv4Addr::new(10, 0, 0, 7));
    }
    let v = Ipv4View::parse(&p).unwrap();
    assert_eq!(v.src(), Ipv4Addr::new(10, 0, 0, 7));
    assert!(v.checksum_valid(), "header checksum must stay valid after SNAT");
}

#[test]
fn dst_rewrite_returns_old_and_new() {
    let mut p = real_packet();
    {
        let mut v = Ipv4ViewMut::parse(&mut p).unwrap();
        let r = v.set_dst(Ipv4Addr::new(10, 0, 0, 9));
        assert_eq!(r, (0xac10_0a0c, 0x0a00_0009));
        assert_eq!(v.dst(), Ipv4Addr::new(10, 0, 0, 9));
        assert_eq!(v.src(), Ipv4Addr::new(172, 16, 10, 99));
        assert_eq!(v.ihl_bytes(), 20);
        assert_eq!(v.protocol(), proto::TCP);
    }
    assert!(Ipv4View::parse(&p).unwrap().checksum_valid());
}

#[test]
fn ttl_decrement_keeps_checksum_valid() {
    let mut p = real_packet();
    {
        let mut v = Ipv4ViewMut::parse(&mut p).unwrap();
        assert_eq!(v.decrement_ttl(), Some(63));
    }
    let v = Ipv4View::parse(&p).unwrap();
    assert_eq!(v.ttl(), 63);
    assert!(v.checksum_valid());
}

#[test]
fn ttl_zero_is_left_alone() {
    let mut p = real_packet();
    p[8] = 0;
    let before = p.clone();
    assert_eq!(Ipv4ViewMut::parse(&mut p).unwrap().decrement_ttl(), None);
    assert_eq!(p, before);
}

#[test]
fn write_header_produces_valid_checksum() {
    let mut buf = [0u8; 20];
    ipv4::write_header(
        &mut buf,
        Ipv4Addr::new(10, 0, 0, 1),
        Ipv4Addr::new(10, 0, 0, 2),
        proto::UDP,
        64,
        0x4242,
        true,
        100,
    );
    let v = Ipv4View::parse(&buf).unwrap();
    assert!(v.checksum_valid());
    assert_eq!(v.total_length(), 120);
    assert_eq!(v.protocol(), proto::UDP);
}

#[test]
fn rejects_ipv6_version() {
    let mut p = real_packet();
    p[0] = 0x60;
    assert!(Ipv4View::parse(&p).is_err());
    assert_eq!(
        Ipv4View::parse(&p).err(),
        Some(ParseError::BadVersion { what: "ipv4", version: 6 })
    );
}

#[test]
fn ipv4_length_errors() {
    let p = real_packet();
    assert_eq!(
        Ipv4View::parse(&p[..19]).err(),
        Some(ParseError::TooShort { what: "ipv4", need: 20, got: 19 })
    );
    let mut short_ihl = p.clone();
    short_ihl[0] = 0x44;
    assert_eq!(
        Ipv4View::parse(&short_ihl).err(),
        Some(ParseError::BadHeaderLen { what: "ipv4", len: 16 })
    );
    let mut long_ihl = p.clone();
    long_ihl[0] = 0x46;
    assert_eq!(
        Ipv4ViewMut::parse(&mut long_ihl).err(),
        Some(ParseError::BadHeaderLen { what: "ipv4", len: 24 })
    );
    let mut short_total = p.clone();
    short_total[3] = 19;
    assert_eq!(
        Ipv4View::parse(&short_total).err(),
        Some(ParseError::BadHeaderLen { what: "ipv4-total", len: 19 })
    );
}

// ---- tcp --------------------------------------------------------------------

fn syn_segment() -> Vec<u8> {
    // A 20-byte TCP header, SYN set, ports 49152 -> 80.
    let mut seg = vec![
        0xc0, 0x00, 0x00, 0x50, // src 49152, dst 80
        0x00, 0x00, 0x00, 0x01, // seq
        0x00, 0x00, 0x00, 0x00, // ack
        0x50, 0x02, 0x72, 0x10, // data offset 5, flags SYN, window
        0x00, 0x00, 0x00, 0x00, // checksum, urgent
    ];
    let src = Ipv4Addr::new(10, 0, 0, 1);
    let dst = Ipv4Addr::new(10, 0, 0, 2);
    let c = tcp::compute_checksum(src, dst, &seg);
    seg[16..18].copy_from_slice(&c.to_be_bytes());
    seg
}

#[test]
fn parse_flags_and_ports() {
    let seg = syn_segment();
    let v = TcpView::parse(&seg).unwrap();
    assert_eq!(v.src_port(), 49152);
    assert_eq!(v.dst_port(), 80);
    assert_eq!(v.data_offset(), 20);
    assert!(v.has_flag(flag::SYN));
    assert!(!v.has_flag(flag::ACK));
    assert_eq!(v.seq(), 1);
    assert_eq!(v.ack(), 0);
    assert_eq!(v.flags(), flag::SYN);
    assert_eq!(v.window(), 0x7210);
    assert!(v.payload().is_empty());
}

#[test]
fn address_rewrite_patch_matches_recompute() {
    let mut seg = syn_segment();
    let old_src = Ipv4Addr::new(10, 0, 0, 1);
    let new_src = Ipv4Addr::new(203, 0, 113, 5);
    let dst = Ipv4Addr::new(10, 0, 0, 2);
    {
        let mut v = TcpViewMut::parse(&mut seg).unwrap();
        v.patch_checksum_dword(old_src.bits, new_src.bits);
    }
    // Recompute as if the segment were sent from the new source.
    let mut check = seg.clone();
    check[16..18].copy_from_slice(&[0, 0]);
    let full = tcp::compute_checksum(new_src, dst, &check);
    assert_eq!(u16::from_be_bytes([seg[16], seg[17]]), full);
}

#[test]
fn tcp_ports_and_errors() {
    let src = Ipv4Addr::new(10, 0, 0, 1);
    let dst = Ipv4Addr::new(10, 0, 0, 2);
    let mut seg = syn_segment();
    {
        let mut v = TcpViewMut::parse(&mut seg).unwrap();
        v.set_src_port(1);
        v.set_dst_port(65535);
        assert_eq!((v.src_port(), v.dst_port()), (1, 65535));
    }
    let stored = TcpView::parse(&seg).unwrap().checksum();
    seg[16] = 0;
    seg[17] = 0;
    assert_eq!(stored, tcp::compute_checksum(src, dst, &seg));

    assert_eq!(
        TcpView::parse(&seg[..19]).err(),
        Some(ParseError::TooShort { what: "tcp", need: 20, got: 19 })
    );
    seg[12] = 0x40;
    assert_eq!(
        TcpView::parse(&seg).err(),
        Some(ParseError::BadHeaderLen { what: "tcp", len: 16 })
    );
    seg[12] = 0x60;
    assert_eq!(
        TcpViewMut::parse(&mut seg).err(),
        Some(ParseError::BadHeaderLen { what: "tcp", len: 24 })
    );
}

// ---- udp --------------------------------------------------------------------

#[test]
fn dnat_port_keeps_checksum_consistent() {
    // Build a UDP datagram, compute its checksum, rewrite dst port, verify
    // the patched checksum equals a full recompute.
    let src = Ipv4Addr::new(10, 0, 0, 1);
    let dst = Ipv4Addr::new(10, 0, 0, 2);
    let payload = b"hello-andromeda";
    let mut dgram = vec![0u8; UDP_HDR_LEN + payload.len()];
    udp::write_header(&mut dgram, 4242, 53, payload.len() as u16);
    dgram[UDP_HDR_LEN..].copy_from_slice(payload);
    let c = udp::compute_checksum(src, dst, &dgram);
    dgram[6..8].copy_from_slice(&c.to_be_bytes());

    {
        let mut v = UdpViewMut::parse(&mut dgram).unwrap();
        v.set_dst_port(5353);
    }

    // Full recompute after the change.
    let mut check = dgram.clone();
    check[6..8].copy_from_slice(&[0, 0]);
    let full = udp::compute_checksum(src, dst, &check);
    let stored = u16::from_be_bytes([dgram[6], dgram[7]]);
    assert_eq!(stored, full, "incremental port patch must equal full recompute");
    assert_eq!(UdpView::parse(&dgram).unwrap().dst_port(), 5353);
}

#[test]
fn disabled_checksum_left_alone() {
    let mut dgram = vec![0u8; UDP_HDR_LEN + 4];
    udp::write_header(&mut dgram, 1, 2, 4);
    // checksum stays 0
    let mut v = UdpViewMut::parse(&mut dgram).unwrap();
    v.set_dst_port(9999);
    assert_eq!(v.checksum(), 0, "disabled checksum must remain 0");
}

#[test]
fn udp_fields_and_errors() {
    let mut dgram = vec![0u8; UDP_HDR_LEN + 4];
    udp::write_header(&mut dgram, 1, 2, 4);
    {
        let v = UdpView::parse(&dgram).unwrap();
        assert_eq!((v.src_port(), v.dst_port(), v.length()), (1, 2, 12));
        assert_eq!(v.payload(), &[0, 0, 0, 0]);
    }
    assert_eq!(
        UdpView::parse(&dgram[..7]).err(),
        Some(ParseError::TooShort { what: "udp", need: 8, got: 7 })
    );
    assert!(UdpViewMut::parse(&mut dgram[..7]).is_err());
}

#[test]
fn udp_checksum_of_zero_is_sent_as_ones() {
    // The one datagram word that makes the covered sum a multiple of 0xffff.
    let a = Ipv4Addr::new(0, 0, 0, 0);
    let mut dgram = vec![0u8; 10];
    // Covered: protocol 17, length 10, and the last word.
    dgram[8..10].copy_from_slice(&(0xffffu16 - 27).to_be_bytes());
    assert_eq!(udp::compute_checksum(a, a, &dgram), 0xffff);
}

// ---- five-tuples and errors -------------------------------------------------

#[test]
fn five_tuple_reverse() {
    let t = FiveTuple {
        src_ip: Ipv4Addr::new(10, 0, 0, 1),
        dst_ip: Ipv4Addr::new(10, 0, 0, 2),
        protocol: 6,
        src_port: 1234,
        dst_port: 80,
    };
    let r = t.reversed();
    assert_eq!(r.src_ip, t.dst_ip);
    assert_eq!(r.src_port, t.dst_port);
    assert_eq!(r.reversed(), t);
    assert_eq!(t.to_string(), "10.0.0.1:1234 -> 10.0.0.2:80 proto=6");
}

#[test]
fn five_tuple_of_packets() {
    let mut p = real_packet();
    assert_eq!(five_tuple_of(&p), None); // no room for a TCP header
    p.extend_from_slice(&syn_segment());
    assert_eq!(
        five_tuple_of(&p).unwrap().to_string(),
        "172.16.10.99:49152 -> 172.16.10.12:80 proto=6"
    );
    p[9] = proto::UDP;
    assert_eq!(five_tuple_of(&p).unwrap().protocol, 17);
    p[9] = proto::ICMP;
    assert_eq!(five_tuple_of(&p), None);
}

#[test]
fn error_texts() {
    assert_eq!(
        ParseError::TooShort { what: "ipv4", need: 20, got: 7 }.to_string(),
        "ipv4: buffer too short (need 20, got 7)"
    );
    assert_eq!(
        ParseError::BadVersion { what: "ipv4", version: 6 }.to_string(),
        "ipv4: unexpected version 6"
    );
    assert_eq!(
        ParseError::BadHeaderLen { what: "tcp", len: 16 }.to_string(),
        "tcp: invalid header length 16"
    );
    assert_eq!(
        ParseError::BufferTooSmall { need: 1050, got: 0 }.to_string(),
        "output buffer too small (need 1050, got 0)"
    );
}

// ---- overlay ----------------------------------------------------------------

fn inner_frame() -> Vec<u8> {
    // A tiny inner Ethernet frame: dst/src MAC + IPv4 ethertype + 8 payload bytes.
    let mut v = MacAddr([0x02, 0, 0, 0, 0, 0x0b]).0.to_vec();
    v.extend_from_slice(&MacAddr([0x02, 0, 0, 0, 0, 0x0a]).0);
    v.extend_from_slice(&ethertype::IPV4.to_be_bytes());
    v.extend_from_slice(&[1, 2, 3, 4, 5, 6, 7, 8]);
    v
}

fn params(outer_udp_checksum: bool) -> EncapParams {
    EncapParams {
        outer_src_mac: MacAddr([0x02, 0, 0, 0, 0xaa, 1]),
        outer_dst_mac: MacAddr([0x02, 0, 0, 0, 0xaa, 2]),
        outer_src_ip: Ipv4Addr::new(192, 168, 0, 1),
        outer_dst_ip: Ipv4Addr::new(192, 168, 0, 2),
        vni: 0x00_0064,
        flow_hash: 0xbeef,
        ip_id: 0x4242,
        outer_udp_checksum,
    }
}

#[test]
fn header_roundtrip() {
    let mut h = AndromedaHdr::new(0x00_abcd, 0x1234);
    h.flags = flags::CONTROL;
    h.hop_limit = 32;
    let mut buf = [0u8; 8];
    h.encode(&mut buf);
    let d = AndromedaHdr::decode(&buf).unwrap();
    assert_eq!(d, h);
    assert!(d.is_control());
    assert_eq!(d.vni, 0x00_abcd);
}

#[test]
fn header_fields_and_errors() {
    let h = AndromedaHdr::new(0xff12_3456, 0xbeef);
    assert_eq!(h.vni, 0x12_3456);
    assert_eq!(h.inner_proto, inner_proto::ETHERNET);
    assert!(!h.is_control());
    let mut buf = [0xffu8; 9];
    h.encode(&mut buf);
    assert_eq!(buf, [0x10, 0x00, 0xbe, 0xef, 0x12, 0x34, 0x56, 64, 0xff]);
    assert_eq!(
        AndromedaHdr::decode(&buf[..7]).err(),
        Some(ParseError::TooShort { what: "andromeda", need: 8, got: 7 })
    );
    buf[0] = 0x20;
    assert_eq!(
        AndromedaHdr::decode(&buf).err(),
        Some(ParseError::BadVersion { what: "andromeda", version: 2 })
    );
}

#[test]
fn encap_then_decap_roundtrips_inner() {
    let inner = inner_frame();
    let mut out = vec![0u8; OVERLAY_OVERHEAD + inner.len()];
    let p = params(true);
    let n = encap(&mut out, &inner, &p).unwrap();
    assert_eq!(n, OVERLAY_OVERHEAD + inner.len());

    // Outer IPv4 checksum must be valid.
    let eth = EthFrame::parse(&out[..n]).unwrap();
    let ip = Ipv4View::parse(eth.payload()).unwrap();
    assert!(ip.checksum_valid());

    // Outer UDP checksum must verify (recompute over l4 with checksum field zeroed == stored).
    let mut l4 = ip.payload().to_vec();
    let stored_udp_ck = UdpView::parse(&l4).unwrap().checksum();
    l4[6] = 0;
    l4[7] = 0;
    let recomputed = udp::compute_checksum(p.outer_src_ip, p.outer_dst_ip, &l4);
    assert_eq!(stored_udp_ck, recomputed);

    // Decap recovers the exact inner frame.
    let d = decap(&out[..n]).unwrap().unwrap();
    assert_eq!(d.header.vni, 0x00_0064);
    assert_eq!(d.header.flow_hash, 0xbeef);
    assert_eq!(d.inner, &inner[..]);
    assert_eq!(d.outer_src_ip, p.outer_src_ip);
    assert_eq!(d.outer_dst_ip, p.outer_dst_ip);
}

#[test]
fn encapsulated_bytes() {
    let inner = inner_frame();
    let mut want = vec![
        0x02, 0, 0, 0, 0xaa, 2, 0x02, 0, 0, 0, 0xaa, 1, 0x08, 0x00, // outer Ethernet
        0x45, 0x00, 0x00, 58, 0x42, 0x42, 0x40, 0x00, 64, 17, 0x77, 0x1d, // outer IPv4
        192, 168, 0, 1, 192, 168, 0, 2, // outer addresses
        0xfe, 0xef, 0xa9, 0xd9, 0x00, 38, 0x86, 0x2b, // outer UDP
        0x10, 0x00, 0xbe, 0xef, 0x00, 0x00, 0x64, 64, // Andromeda
    ];
    want.extend_from_slice(&inner);

    let mut out = vec![0xeeu8; want.len() + 1];
    let n = encap(&mut out, &inner, &params(true)).unwrap();
    assert_eq!(&out[..n], &want[..]);
    assert_eq!(out[n], 0xee);

    // Without the outer UDP checksum the field is zero; in place, nothing is copied.
    want[40] = 0;
    want[41] = 0;
    let mut buf = vec![0u8; want.len()];
    buf[OVERLAY_OVERHEAD..].copy_from_slice(&inner);
    let m = encap_in_place(&mut buf, inner.len(), &params(false)).unwrap();
    assert_eq!(&buf[..m], &want[..]);
    assert_eq!(ANDROMEDA_UDP_PORT, 0xa9d9);
}

#[test]
fn encap_needs_room() {
    let inner = inner_frame();
    let mut out = vec![9u8; 71];
    assert_eq!(
        encap(&mut out, &inner, &params(true)).err(),
        Some(ParseError::BufferTooSmall { need: 72, got: 71 })
    );
    assert_eq!(out, vec![9u8; 71]);
    assert_eq!(
        encap_in_place(&mut out, usize::MAX, &params(true)).err(),
        Some(ParseError::BufferTooSmall { need: usize::MAX, got: 71 })
    );
}

#[test]
fn decap_ignores_non_andromeda() {
    // Plain ARP frame → not Andromeda, Ok(None).
    let mut v = vec![0xffu8; 6];
    v.extend_from_slice(&[0x02, 0, 0, 0, 0, 1]);
    v.extend_from_slice(&ethertype::ARP.to_be_bytes());
    v.extend_from_slice(&[0u8; 28]);
    assert!(decap(&v).unwrap().is_none());
}

#[test]
fn decap_errors() {
    let inner = inner_frame();
    let mut out = vec![0u8; 72];
    encap(&mut out, &inner, &params(false)).unwrap();
    assert!(decap(&out[..13]).is_err());
    assert_eq!(
        decap(&out[..33]).err(),
        Some(ParseError::TooShort { what: "ipv4", need: 20, got: 19 })
    );
    assert_eq!(
        decap(&out[..41]).err(),
        Some(ParseError::TooShort { what: "udp", need: 8, got: 7 })
    );
    assert_eq!(
        decap(&out[..49]).err(),
        Some(ParseError::TooShort { what: "andromeda", need: 8, got: 7 })
    );
    let mut other_port = out.clone();
    other_port[37] ^= 1;
    assert!(decap(&other_port).unwrap().is_none());
    let mut tcp_inside = out.clone();
    tcp_inside[23] = proto::TCP;
    assert!(decap(&tcp_inside).unwrap().is_none());
    assert_eq!(decap(&out[..50]).unwrap().unwrap().inner.len(), 0);
    assert_eq!(ETH_HDR_LEN, 14);
}

#[test]
fn a_length_that_wraps_does_not_survive() {
    // 36 + 65500 bytes wrap the IPv4 total length to 0.
    let inner = vec![0u8; 65500];
    let mut out = vec![0u8; OVERLAY_OVERHEAD + inner.len()];
    let n = encap(&mut out, &inner, &params(false)).unwrap();
    assert_eq!(
        decap(&out[..n]).err(),
        Some(ParseError::BadHeaderLen { what: "ipv4-total", len: 0 })
    );
}

#[test]
fn flow_hash_is_stable_and_varies() {
    let a = flow_hash(Ipv4Addr::new(10, 0, 0, 1), Ipv4Addr::new(10, 0, 0, 2), 6, 1234, 80);
    let b = flow_hash(Ipv4Addr::new(10, 0, 0, 1), Ipv4Addr::new(10, 0, 0, 2), 6, 1234, 80);
    let c = flow_hash(Ipv4Addr::new(10, 0, 0, 1), Ipv4Addr::new(10, 0, 0, 2), 6, 1235, 80);
    assert_eq!(a, b, "same tuple → same hash");
    assert_ne!(a, c, "different port → (very likely) different hash");
    assert_eq!(a, 0xdb55);
    assert_eq!(c, 0x25b7);
    assert_eq!(overlay::ANDROMEDA_VERSION, 1);
}

// ---- laws of the headers -------------------------------------------------------

#[test]
fn a_checksum_spans_regions() {
    // The first region ends on a word boundary, the second on an odd byte.
    let (a, b) = ([0x12u8, 0x34, 0xff, 0xff], [0xabu8, 0xcd, 0xef]);
    let whole = [0x12u8, 0x34, 0xff, 0xff, 0xab, 0xcd, 0xef];
    assert_eq!(finalize(accumulate(sum_be16(&a), &b)), checksum(&whole));
    assert_eq!(checksum(&whole), 0x52fd);
}

#[test]
fn written_headers_leave_the_rest_alone() {
    let mut frame = [0x5au8; 20];
    ethernet::write_header(&mut frame, MacAddr([1, 2, 3, 4, 5, 6]), MacAddr([7; 6]), 0x1234);
    let f = EthFrame::parse(&frame).unwrap();
    assert_eq!((f.dst().0, f.src().0, f.ethertype()), ([1, 2, 3, 4, 5, 6], [7; 6], 0x1234));
    assert_eq!(f.payload(), &[0x5a; 6]);

    let mut dg = [0x5au8; 12];
    udp::write_header(&mut dg, 53, 4096, 4);
    let u = UdpView::parse(&dg).unwrap();
    assert_eq!((u.src_port(), u.dst_port(), u.length(), u.checksum()), (53, 4096, 12, 0));
    assert_eq!(&dg[8..], &[0x5a; 4]);

    // The length field is kept modulo 65536.
    udp::write_header(&mut dg, 53, 4096, 65530);
    assert_eq!(UdpView::parse(&dg).unwrap().length(), 2);
}

#[test]
fn stored_transport_checksums_recompute() {
    let (src, dst) = (ip("10.1.2.3"), ip("10.4.5.6"));
    let mut dg = [9u8; 13];
    udp::write_header(&mut dg, 7, 8, 5);
    let c = udp::compute_checksum(src, dst, &dg);
    dg[6..8].copy_from_slice(&c.to_be_bytes());
    let mut blank = dg;
    blank[6..8].copy_from_slice(&[0, 0]);
    assert_ne!(c, 0);
    assert_eq!(udp::compute_checksum(src, dst, &blank), UdpView::parse(&dg).unwrap().checksum());

    let mut seg = [0u8; 20];
    seg[12] = 0x50;
    let c = tcp::compute_checksum(src, dst, &seg);
    seg[16..18].copy_from_slice(&c.to_be_bytes());
    let mut blank = seg;
    blank[16..18].copy_from_slice(&[0, 0]);
    assert_eq!(tcp::compute_checksum(src, dst, &blank), TcpView::parse(&seg).unwrap().checksum());
}

#[test]
fn rewritten_ipv4_checksums_are_the_recomputed_ones() {
    let mut pkt = [0u8; 24];
    ipv4::write_header(&mut pkt, ip("10.0.0.1"), ip("10.0.0.2"), proto::UDP, 64, 7, true, 4);
    let recomputed = |p: &[u8]| {
        let mut h = p[..20].to_vec();
        h[10] = 0;
        h[11] = 0;
        checksum(&h)
    };
    assert_eq!(Ipv4View::parse(&pkt).unwrap().header_checksum(), recomputed(&pkt));
    let mut v = Ipv4ViewMut::parse(&mut pkt).unwrap();
    v.set_src(ip("203.0.113.7"));
    v.set_dst(ip("0.0.0.0"));
    v.decrement_ttl();
    assert_eq!(Ipv4View::parse(&pkt).unwrap().header_checksum(), recomputed(&pkt));
}

#[test]
fn raw_sums_span_regions() {
    let (a, b) = ([0x12u8, 0x34, 0xff, 0xff], [0xabu8, 0xcd, 0xef]);
    let whole = [0x12u8, 0x34, 0xff, 0xff, 0xab, 0xcd, 0xef];
    assert_eq!(accumulate(sum_be16(&a), &b), sum_be16(&whole));
    assert_eq!(sum_be16(&whole), 0x1234 + 0xffff + 0xabcd + 0xef00);
}
