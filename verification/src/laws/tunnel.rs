//! What the overlay puts around a frame, and what it takes for overlay traffic.

use vstd::prelude::*;
use crate::addr::Ipv4Addr;
use crate::ipv4::ipv4_error;
use crate::laws::packets::{is_ipv4, l4_start, law_ipv4_layout, law_ipv4_parses};
use crate::overlay::{
    data_header, encap_fits, encap_need, entropy_port, flags, flow_key, fnv, fold_hash, header_at,
    header_bytes, header_error, inner_proto, lemma_overlay_layers, overlay_frame, parcel_of,
    AndromedaHdr, EncapParams, ANDROMEDA_UDP_PORT, ANDROMEDA_VERSION,
};
use crate::wire::{be16, be32, lemma_be16_read, lemma_be32_read, splice, tail};
use crate::{l4_of, ParseError};

verus! {

broadcast use crate::wire::group_field_lengths;

/// **The Andromeda header, byte by byte.** Each field keeps as many low bits as it has
/// room for.
pub proof fn law_header_layout(h: AndromedaHdr)
    ensures
        ({
            let b = header_bytes(h);
            &&& b.len() == 8
            &&& b[0] == 16 * (h.version % 16) + h.flags % 16
            &&& b[1] == h.inner_proto
            &&& be16(b, 2) == h.flow_hash
            &&& 0x1_0000 * b[4] + 256 * b[5] + b[6] == h.vni % 0x100_0000
            &&& b[7] == h.hop_limit
        }),
{
    let b = header_bytes(h);
    let v = h.vni;
    lemma_be16_read(b, 2, h.flow_hash);
    assert(0x1_0000 * ((v / 0x1_0000) % 256) + 256 * ((v / 0x100) % 256) + v % 256 == v
        % 0x100_0000) by (bit_vector);
    assert(b[4] == (v / 0x1_0000) % 256 && b[5] == (v / 0x100) % 256 && b[6] == v % 256);
}

/// **Eight bytes of version 1 are a header**, whatever else they hold; nothing else is.
pub proof fn law_header_is_read(s: Seq<u8>)
    requires
        s.len() <= usize::MAX,
    ensures
        header_error(s) is None <==> s.len() >= 8 && 16 <= s[0] < 32,
        s.len() < 8 ==> header_error(s) == Some(
            ParseError::TooShort { what: "andromeda", need: 8, got: s.len() as usize },
        ),
        s.len() >= 8 && header_error(s) is Some ==> header_error(s) == Some(
            ParseError::BadVersion { what: "andromeda", version: s[0] / 16 },
        ),
        s.len() >= 8 ==> {
            let h = header_at(s);
            &&& 16 * h.version + h.flags == s[0]
            &&& h.flags < 16
            &&& h.inner_proto == s[1]
            &&& h.flow_hash == 256 * s[2] + s[3]
            &&& h.vni == 0x1_0000 * s[4] + 256 * s[5] + s[6]
            &&& h.hop_limit == s[7]
        },
{
}

/// **A new header** is of version 1, carries Ethernet, has no flags and 64 hops to go.
pub proof fn law_new_header(vni: u32, flow_hash: u16)
    ensures
        ({
            let h = data_header(vni, flow_hash);
            &&& h.version == 1
            &&& h.flags == 0
            &&& h.inner_proto == 0
            &&& h.flow_hash == flow_hash
            &&& h.vni == vni % 0x100_0000
            &&& h.hop_limit == 64
        }),
{
}

/// **The numbers of the overlay.**
pub proof fn law_overlay_numbers()
    ensures
        ANDROMEDA_UDP_PORT == 43481,
        ANDROMEDA_VERSION == 1,
        flags::CONTROL == 8,
        flags::OAM == 4,
        inner_proto::ETHERNET == 0,
        inner_proto::IPV4 == 1,
{
}

/// **An encapsulated frame, byte by byte**: outer Ethernet, IPv4 and UDP, the Andromeda
/// header, and then the inner frame as it was.
pub proof fn law_overlay_layout(p: EncapParams, inner: Seq<u8>)
    ensures
        ({
            let f = overlay_frame(p, inner);
            &&& f.len() == 50 + inner.len()
            &&& f.take(6) == p.outer_dst_mac@
            &&& f.subrange(6, 12) == p.outer_src_mac@
            &&& be16(f, 12) == 0x0800
            &&& f[14] == 0x45
            &&& f[15] == 0
            &&& be16(f, 16) == (36 + inner.len()) % 0x1_0000
            &&& be16(f, 18) == p.ip_id
            &&& be16(f, 20) == 0x4000
            &&& f[22] == 64
            &&& f[23] == 17
            &&& be32(f, 26) == p.outer_src_ip.bits
            &&& be32(f, 30) == p.outer_dst_ip.bits
            &&& be16(f, 34) == 0xc000 + p.flow_hash % 0x4000
            &&& be16(f, 36) == 43481
            &&& be16(f, 38) == (16 + inner.len()) % 0x1_0000
            &&& f[42] == 0x10
            &&& f[43] == 0
            &&& be16(f, 44) == p.flow_hash
            &&& 0x1_0000 * f[46] + 256 * f[47] + f[48] == p.vni % 0x100_0000
            &&& f[49] == 64
            &&& f.skip(50) == inner
            &&& !p.outer_udp_checksum ==> f[40] == 0 && f[41] == 0
        }),
{
    lemma_outer_ip(p, inner);
    lemma_outer_body(p, inner);
    lemma_outer_edges(p, inner);
}

/// The outer IPv4 header of an encapsulated frame.
proof fn lemma_outer_ip(p: EncapParams, inner: Seq<u8>)
    ensures
        ({
            let f = overlay_frame(p, inner);
            &&& f.len() == 50 + inner.len()
            &&& be16(f, 12) == 0x0800
            &&& f[14] == 0x45
            &&& f[15] == 0
            &&& be16(f, 16) == (36 + inner.len()) % 0x1_0000
            &&& be16(f, 18) == p.ip_id
            &&& be16(f, 20) == 0x4000
            &&& f[22] == 64
            &&& f[23] == 17
            &&& be32(f, 26) == p.outer_src_ip.bits
            &&& be32(f, 30) == p.outer_dst_ip.bits
        }),
{
    let f = overlay_frame(p, inner);
    let n = inner.len();
    let ip = tail(f, 14);
    let len = ((8 + (8 + n) % 0x1_0000) % 0x1_0000) as u16;
    let full = crate::ipv4::full_header(
        p.outer_src_ip,
        p.outer_dst_ip,
        crate::ipv4::proto::UDP,
        64,
        p.ip_id,
        true,
        len,
    );
    lemma_overlay_layers(p, inner);
    law_ipv4_layout(p.outer_src_ip, p.outer_dst_ip, 17, 64, p.ip_id, true, len);
    assert(ip == splice(ip, 0, full));
    assert forall|i: int| 0 <= i < 20 implies #[trigger] full[i] == f[14 + i] by {
        assert(splice(ip, 0, full)[i] == full[i] && ip[i] == f[14 + i]);
    }
    assert(full[0] == f[14] && full[1] == f[15] && full[2] == f[16] && full[3] == f[17]);
    assert(full[4] == f[18] && full[5] == f[19] && full[6] == f[20] && full[7] == f[21]);
    assert(full[8] == f[22] && full[9] == f[23]);
    assert(full[12] == f[26] && full[13] == f[27] && full[14] == f[28] && full[15] == f[29]);
    assert(full[16] == f[30] && full[17] == f[31] && full[18] == f[32] && full[19] == f[33]);
    assert(be16(f, 16) == be16(full, 2) && be16(f, 18) == be16(full, 4) && be16(f, 20) == be16(
        full,
        6,
    ));
    assert(be32(f, 26) == be32(full, 12) && be32(f, 30) == be32(full, 16));
}

/// The ports, the Andromeda header and the inner frame of an encapsulated frame.
proof fn lemma_outer_body(p: EncapParams, inner: Seq<u8>)
    ensures
        ({
            let f = overlay_frame(p, inner);
            &&& be16(f, 34) == 0xc000 + p.flow_hash % 0x4000
            &&& be16(f, 36) == 43481
            &&& f[42] == 0x10
            &&& f[43] == 0
            &&& be16(f, 44) == p.flow_hash
            &&& 0x1_0000 * f[46] + 256 * f[47] + f[48] == p.vni % 0x100_0000
            &&& f[49] == 64
            &&& f.skip(50) == inner
        }),
{
    let f = overlay_frame(p, inner);
    let l4 = tail(tail(f, 14), 20);
    let body = tail(l4, 8);
    let h = header_bytes(data_header(p.vni, p.flow_hash));
    lemma_overlay_layers(p, inner);
    law_header_layout(data_header(p.vni, p.flow_hash));
    assert(forall|i: int| 0 <= i < l4.len() ==> #[trigger] l4[i] == f[34 + i]);
    assert(forall|i: int| 0 <= i < body.len() ==> #[trigger] body[i] == f[42 + i]);
    assert(l4[0] == f[34] && l4[1] == f[35] && l4[2] == f[36] && l4[3] == f[37]);
    assert(body == h + inner);
    assert(body[0] == h[0] && body[1] == h[1] && body[2] == h[2] && body[3] == h[3] && body[4]
        == h[4] && body[5] == h[5] && body[6] == h[6] && body[7] == h[7]);
    assert(be16(f, 44) == be16(h, 2));
    assert forall|i: int| 0 <= i < inner.len() implies f.skip(50)[i] == inner[i] by {
        assert(body[8 + i] == inner[i]);
    }
    assert(f.skip(50) =~= inner);
}

/// The parts of an encapsulated frame that its layers do not show.
proof fn lemma_outer_edges(p: EncapParams, inner: Seq<u8>)
    ensures
        ({
            let f = overlay_frame(p, inner);
            &&& f.take(6) == p.outer_dst_mac@
            &&& f.subrange(6, 12) == p.outer_src_mac@
            &&& be16(f, 38) == (16 + inner.len()) % 0x1_0000
            &&& !p.outer_udp_checksum ==> f[40] == 0 && f[41] == 0
        }),
{
    reveal(overlay_frame);
    let f = overlay_frame(p, inner);
    let n = inner.len();
    let bare = crate::overlay::bare_frame(p, inner);
    assert(forall|i: int| 0 <= i < 40 ==> #[trigger] f[i] == bare[i]);
    assert(f.take(6) =~= p.outer_dst_mac@);
    assert(f.subrange(6, 12) =~= p.outer_src_mac@);
    let udp_len = ((8 + n) % 0x1_0000) as u16;
    let u = crate::udp::udp_header(entropy_port(p.flow_hash), 43481, udp_len);
    assert(u.len() == 8);
    assert(forall|i: int| 0 <= i < 8 ==> #[trigger] u[i] == bare[34 + i]);
    assert(bare[38] == u[4] && bare[39] == u[5] && bare[40] == u[6] && bare[41] == u[7]);
    crate::laws::packets::law_udp_layout(entropy_port(p.flow_hash), 43481, udp_len);
    assert(be16(f, 38) == be16(u, 4));
}

/// **What decapsulation takes out of a frame.** A frame is overlay traffic exactly if it
/// is IPv4 and UDP to port 43481 and a header of version 1 follows; the inner frame is
/// all that stands behind it. Other traffic is left alone, broken headers are errors.
pub proof fn law_decapsulation(s: Seq<u8>)
    requires
        s.len() <= usize::MAX,
    ensures
        ({
            let ip = s.skip(14);
            let u = 14 + l4_start(ip);
            let udp = s.len() >= 14 && be16(s, 12) == 0x0800 && is_ipv4(ip) && s[23] == 17;
            let ours = udp && u + 8 <= s.len() && be16(s, u + 2) == 43481;
            &&& (parcel_of(s) matches Ok(Some(_))) <==> ours && u + 16 <= s.len() && s[u + 8] / 16
                == 1
            &&& (parcel_of(s) matches Ok(None)) <==> s.len() >= 14 && (be16(s, 12) != 0x0800
                || is_ipv4(ip) && s[23] != 17 || udp && u + 8 <= s.len() && be16(s, u + 2) != 43481)
            &&& parcel_of(s) matches Err(e) ==> e == if s.len() < 14 {
                ParseError::TooShort { what: "ethernet", need: 14, got: s.len() as usize }
            } else if !is_ipv4(ip) {
                ipv4_error(ip).unwrap()
            } else if u + 8 > s.len() {
                ParseError::TooShort { what: "udp", need: 8, got: (s.len() - u) as usize }
            } else {
                header_error(s.skip(u + 8)).unwrap()
            }
            &&& parcel_of(s) matches Ok(Some(p)) ==> {
                &&& p.inner == s.skip(u + 16)
                &&& p.outer_src_ip.bits == be32(s, 26)
                &&& p.outer_dst_ip.bits == be32(s, 30)
                &&& p.header.version == 1
                &&& p.header.flags == s[u + 8] % 16
                &&& p.header.inner_proto == s[u + 9]
                &&& p.header.flow_hash == be16(s, u + 10)
                &&& p.header.vni == 0x1_0000 * s[u + 12] + 256 * s[u + 13] + s[u + 14]
                &&& p.header.hop_limit == s[u + 15]
            }
        }),
{
    reveal(parcel_of);
    if s.len() >= 14 {
        let ip = tail(s, 14);
        assert(ip =~= s.skip(14));
        law_ipv4_parses(ip);
        if is_ipv4(ip) {
            let o = l4_start(ip);
            let l4 = l4_of(ip);
            let u = 14 + o;
            assert(l4 =~= s.skip(u));
            assert(forall|i: int| 0 <= i < l4.len() ==> #[trigger] l4[i] == s[u + i]);
            if l4.len() >= 8 {
                let body = tail(l4, 8);
                assert(body =~= s.skip(u + 8));
                assert(forall|i: int| 0 <= i < body.len() ==> #[trigger] body[i] == s[u + 8 + i]);
                law_header_is_read(body);
                if body.len() >= 8 {
                    assert(tail(body, 8) =~= s.skip(u + 16));
                    assert(body[0] == s[u + 8] && body[1] == s[u + 9] && body[2] == s[u + 10]
                        && body[3] == s[u + 11] && body[4] == s[u + 12] && body[5] == s[u + 13]
                        && body[6] == s[u + 14] && body[7] == s[u + 15]);
                }
            }
        }
    }
}

/// **The flow hash is FNV-1a of the 5-tuple**, its 13 bytes one after the other, folded to
/// 16 bits: a byte is xor-ed in, then the hash is multiplied.
pub proof fn law_flow_hash(
    src: Ipv4Addr,
    dst: Ipv4Addr,
    protocol: u8,
    src_port: u16,
    dst_port: u16,
    s: Seq<u8>,
    b: u8,
    h: u32,
)
    ensures
        fnv(Seq::empty()) == 0x811c_9dc5,
        fnv(s.push(b)) == ((fnv(s) ^ (b as u32)) * 16777619) % 0x1_0000_0000,
        fold_hash(h) == ((h / 0x1_0000) as u16) ^ ((h % 0x1_0000) as u16),
        ({
            let k = flow_key(src, dst, protocol, src_port, dst_port);
            &&& k.len() == 13
            &&& be32(k, 0) == src.bits
            &&& be32(k, 4) == dst.bits
            &&& k[8] == protocol
            &&& be16(k, 9) == src_port
            &&& be16(k, 11) == dst_port
        }),
{
    let k = flow_key(src, dst, protocol, src_port, dst_port);
    assert(s.push(b).drop_last() =~= s);
    lemma_be32_read(k, 0, src.bits);
    lemma_be32_read(k, 4, dst.bits);
    lemma_be16_read(k, 9, src_port);
    lemma_be16_read(k, 11, dst_port);
}

/// **Encapsulation needs 50 bytes more than the inner frame.**
pub proof fn law_room_for_encapsulation(room: nat, n: nat)
    ensures
        encap_fits(room, n) <==> 50 + n <= room,
        50 + n <= usize::MAX ==> encap_need(n) == 50 + n,
        50 + n > usize::MAX ==> encap_need(n) == usize::MAX,
{
}

} // verus!
