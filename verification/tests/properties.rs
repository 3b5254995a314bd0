//! Properties over many pseudo-random inputs.

use andromeda::addr::Ipv4Addr;
use andromeda::arp;
use andromeda::checksum::{checksum, update_word};
use andromeda::control::{Endpoint, Fabric, Vpc};
use andromeda::ethernet::{EthFrame, EthFrameMut, MacAddr};
use andromeda::five_tuple_of;
use andromeda::ipv4;
use andromeda::ipv4::{Ipv4View, Ipv4ViewMut};
use andromeda::overlay;
use andromeda::overlay::{AndromedaHdr, EncapParams, OVERLAY_OVERHEAD};
use andromeda::pipeline::{FrameSlot, Pipeline, PipelineConfig};
use andromeda::tcp::TcpView;
use andromeda::translate::{apply, NatEngine, Rewrite};
use andromeda::udp::UdpView;

/// A small pseudo-random generator.
struct Rng(u64);

impl Rng {
    fn next(&mut self) -> u64 {
        self.0 ^= self.0 << 13;
        self.0 ^= self.0 >> 7;
        self.0 ^= self.0 << 17;
        self.0
    }

    fn below(&mut self, n: u64) -> u64 {
        (self.next() >> 8) % n
    }

    fn bytes(&mut self, n: usize) -> Vec<u8> {
        (0..n).map(|_| (self.next() >> 24) as u8).collect()
    }

    /// Bytes that look like an IPv4 frame more often than not.
    fn frame(&mut self, max: u64) -> Vec<u8> {
        let n = self.below(max) as usize;
        let mut v = self.bytes(n);
        if n > 40 && self.below(4) > 0 {
            v[12] = 0x08;
            v[13] = if self.below(8) == 0 { 6 } else { 0 };
            v[14] = 0x45 + self.below(3) as u8;
            v[16] = 0x7f;
            v[23] = [6u8, 17, 1, 17][self.below(4) as usize];
            if self.below(2) == 0 {
                v[36] = 0xa9;
                v[37] = 0xd9;
            }
        }
        v
    }
}

/// No parser may ever panic on arbitrary bytes — malformed input must return
/// `Err`/`None`, never crash.
#[test]
fn parsers_never_panic() {
    let mut r = Rng(1);
    for _ in 0..2000 {
        let data = r.frame(2048);
        let _ = EthFrame::parse(&data);
        let _ = Ipv4View::parse(&data);
        let _ = UdpView::parse(&data);
        let _ = TcpView::parse(&data);
        let _ = arp::ArpView::parse(&data);
        let _ = AndromedaHdr::decode(&data);
        let _ = five_tuple_of(&data);
        let _ = overlay::decap(&data);
        // Mutable views must be equally robust.
        let mut d2 = data.clone();
        let _ = EthFrameMut::parse(&mut d2);
        let _ = Ipv4ViewMut::parse(&mut d2);
    }
}

/// Encapsulation is lossless: decapsulating recovers the exact inner frame, VNI,
/// and flow hash, for any inner payload and any header field values.
#[test]
fn encap_decap_roundtrips() {
    let mut r = Rng(2);
    for _ in 0..500 {
        let n = r.below(1400) as usize;
        let inner = r.bytes(n);
        let vni = r.below(0x0100_0000) as u32;
        let flow = r.next() as u16;
        let mut out = vec![0u8; OVERLAY_OVERHEAD + inner.len()];
        let params = EncapParams {
            outer_src_mac: MacAddr([2, 0, 0, 0, 0, 1]),
            outer_dst_mac: MacAddr([2, 0, 0, 0, 0, 2]),
            outer_src_ip: Ipv4Addr::new(192, 168, 0, 1),
            outer_dst_ip: Ipv4Addr::new(192, 168, 0, 2),
            vni,
            flow_hash: flow,
            ip_id: r.next() as u16,
            outer_udp_checksum: true,
        };
        let n = overlay::encap(&mut out, &inner, &params).unwrap();
        assert_eq!(n, OVERLAY_OVERHEAD + inner.len());

        // Outer IPv4 checksum must always be valid.
        let eth = EthFrame::parse(&out[..n]).unwrap();
        let ip = Ipv4View::parse(eth.payload()).unwrap();
        assert!(ip.checksum_valid());

        let d = overlay::decap(&out[..n]).unwrap().unwrap();
        assert_eq!(d.inner, &inner[..]);
        assert_eq!(d.header.vni, vni);
        assert_eq!(d.header.flow_hash, flow);
    }
}

/// The Andromeda header survives an encode → decode round trip for all field
/// values (within their bit widths).
#[test]
fn andromeda_header_roundtrips() {
    let mut r = Rng(3);
    for _ in 0..2000 {
        let mut h = AndromedaHdr::new(r.below(0x0100_0000) as u32, r.next() as u16);
        h.flags = r.below(16) as u8;
        h.inner_proto = r.next() as u8;
        h.hop_limit = r.next() as u8;
        let mut buf = [0u8; 8];
        h.encode(&mut buf);
        let got = AndromedaHdr::decode(&buf).unwrap();
        assert_eq!(got, h);
    }
}

/// RFC 1624 incremental checksum update equals a full recompute, for an arbitrary
/// buffer and an arbitrary 16-bit word change at an arbitrary aligned offset.
#[test]
fn incremental_checksum_matches_recompute() {
    let mut r = Rng(4);
    for round in 0..2000 {
        // Work on an even-length buffer and an aligned 16-bit word.
        let n = 2 + r.below(126) as usize;
        let mut buf = r.bytes(n);
        if buf.len() % 2 == 1 {
            buf.push(0);
        }
        let words = buf.len() as u64 / 2;
        let idx = r.below(words) as usize * 2;
        let new = if round % 16 == 0 { 0 } else { r.next() as u16 };

        let c0 = checksum(&buf);
        let old = u16::from_be_bytes([buf[idx], buf[idx + 1]]);
        buf[idx..idx + 2].copy_from_slice(&new.to_be_bytes());
        // Zero has two forms in one's complement; only all-zero data tell them apart.
        if buf.iter().all(|b| *b == 0) {
            continue;
        }

        let incremental = update_word(c0, old, new);
        let full = checksum(&buf);
        assert_eq!(incremental, full);
    }
}

/// SNAT-style source rewrite keeps the IPv4 header checksum valid for arbitrary
/// original and new addresses.
#[test]
fn ipv4_src_rewrite_keeps_checksum_valid() {
    let mut r = Rng(5);
    for _ in 0..2000 {
        // Build a minimal valid IPv4 header (20 bytes) with arbitrary addresses.
        let a = Ipv4Addr { bits: r.next() as u32 };
        let b = Ipv4Addr { bits: r.next() as u32 };
        let new = Ipv4Addr { bits: r.next() as u32 };
        let mut pkt = vec![0u8; 20];
        ipv4::write_header(&mut pkt, a, b, ipv4::proto::UDP, 64, 1, true, 0);
        assert!(Ipv4View::parse(&pkt).unwrap().checksum_valid());

        {
            let mut v = Ipv4ViewMut::parse(&mut pkt).unwrap();
            v.set_src(new);
        }
        let v = Ipv4View::parse(&pkt).unwrap();
        assert_eq!(v.src(), new);
        assert!(v.checksum_valid());
    }
}

/// `apply` on arbitrary bytes with an arbitrary rewrite must never panic — it
/// parses via bounds-checked views and returns `Err` on anything malformed.
#[test]
fn nat_apply_never_panics() {
    let mut r = Rng(6);
    for _ in 0..3000 {
        let mut buf = r.frame(512);
        let addr = r.next() as u32;
        let bits = r.below(16);
        let rw = Rewrite {
            new_src_ip: (bits & 1 != 0).then_some(Ipv4Addr { bits: addr }),
            new_dst_ip: (bits & 2 != 0).then_some(Ipv4Addr { bits: !addr }),
            new_src_port: (bits & 4 != 0).then_some(r.next() as u16),
            new_dst_port: (bits & 8 != 0).then_some(r.next() as u16),
        };
        // Must not panic; a malformed packet just returns Err.
        let n = buf.len();
        let _ = apply(&mut buf, &rw);
        if n > 14 {
            let _ = apply(&mut buf[14..], &rw);
        }
        assert_eq!(buf.len(), n);
    }
}

fn pipeline() -> Pipeline {
    let mut fabric = Fabric::new("192.168.1.1".parse().unwrap());
    fabric.add_vpc(Vpc {
        vni: 100,
        name: "t".into(),
        cidr: ("10.0.0.0".parse().unwrap(), 24),
    });
    fabric.add_endpoint(Endpoint {
        vni: 100,
        inner_ip: "10.0.0.20".parse().unwrap(),
        inner_mac: MacAddr([2, 0, 0, 0, 0, 0x20]),
        node_ip: "192.168.1.2".parse().unwrap(),
        local: false,
    });
    let cfg = PipelineConfig {
        local_node_ip: "192.168.1.1".parse().unwrap(),
        outer_src_mac: MacAddr([2, 0, 0, 0, 0, 1]),
        outer_dst_mac: MacAddr([2, 0, 0, 0, 0, 2]),
        vni: 100,
        nat_ip: Some("203.0.113.7".parse().unwrap()),
        gateway_node_ip: Some("192.168.1.254".parse().unwrap()),
        virtual_gateway_mac: MacAddr([2, 0, 0, 0, 0, 0xff]),
        outer_udp_checksum: false,
    };
    Pipeline::new(
        cfg,
        fabric,
        NatEngine::new("203.0.113.7".parse().unwrap(), 20000, 60000),
    )
}

/// No pipeline entry point panics on arbitrary frames (tenant encap, underlay
/// decap, zero-copy in-place encap, and the batch path).
#[test]
fn pipeline_never_panics() {
    let mut r = Rng(7);
    let mut p = pipeline();
    for _ in 0..1000 {
        let data = r.frame(1600);
        let mut out = vec![0u8; 2048];
        let _ = p.on_tenant_frame(&data, &mut out, 0);
        let _ = p.on_underlay_frame(&data, &mut out, 0);

        // Zero-copy variants: place the random bytes as the inner frame in a UMEM-like
        // buffer and exercise the in-place and batch encap paths.
        let inner_len = data.len().min(2048 - OVERLAY_OVERHEAD);
        let mut buf = vec![0u8; 2048];
        buf[OVERLAY_OVERHEAD..OVERLAY_OVERHEAD + inner_len].copy_from_slice(&data[..inner_len]);
        let _ = p.on_tenant_frame_inplace(&mut buf, inner_len, 0);
        let slots = [FrameSlot { offset: 0, inner_len }];
        let _ = p.encap_batch_inplace(&mut buf, &slots, 0);
    }
}

/// `encap_for_vni` (the multi-VPC entry) must not panic for any VNI or frame.
#[test]
fn encap_for_vni_never_panics() {
    let mut r = Rng(8);
    let mut p = pipeline();
    for _ in 0..1000 {
        let data = r.frame(1600);
        let mut out = vec![0u8; 2048];
        let _ = p.encap_for_vni(&data, &mut out, 0, r.below(0x0100_0000) as u32);
    }
}
