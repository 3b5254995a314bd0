//! The Andromeda overlay encapsulation.
//!
//! An inner Ethernet frame belonging to a tenant VPC is wrapped as:
//!
//! ```text
//!   [ outer Ethernet ][ outer IPv4 ][ outer UDP ][ Andromeda hdr ][ inner Ethernet frame ... ]
//!     14 bytes          20 bytes      8 bytes      8 bytes
//! ```
//!
//! The 8-byte header carries the 24-bit virtual network id and a *flow hash*, which
//! is also copied into the outer UDP source port so that the underlay spreads a
//! tenant's flows across paths:
//!
//! ```text
//!  0                   1                   2                   3
//!  0 1 2 3 4 5 6 7 8 9 0 1 2 3 4 5 6 7 8 9 0 1 2 3 4 5 6 7 8 9 0 1
//! +-+-+-+-+-+-+-+-+-+-+-+-+-+-+-+-+-+-+-+-+-+-+-+-+-+-+-+-+-+-+-+-+
//! |  Ver  | Flags |  Inner proto  |           Flow hash           |
//! +-+-+-+-+-+-+-+-+-+-+-+-+-+-+-+-+-+-+-+-+-+-+-+-+-+-+-+-+-+-+-+-+
//! |                  VNI (24 bits)                |   Hop limit   |
//! +-+-+-+-+-+-+-+-+-+-+-+-+-+-+-+-+-+-+-+-+-+-+-+-+-+-+-+-+-+-+-+-+
//! ```

use vstd::prelude::*;
use crate::addr::Ipv4Addr;
use crate::ethernet;
use crate::ethernet::{eth_header, eth_too_short, ethertype, EthFrame, MacAddr, ETH_HDR_LEN};
use crate::ipv4;
use crate::ipv4::{
    addr_at, full_header, header_sound, header_valid, ihl_of, ipv4_error,
    law_written_header_is_valid, Ipv4View, IPV4_MIN_HDR_LEN,
};
use crate::l4_of;
use crate::udp;
use crate::udp::{udp_blank, udp_checksum, udp_header, udp_too_short, UdpView, UDP_HDR_LEN};
use crate::wire::{
    be16, be16_bytes, be32_bytes, get_be16, lemma_be16_read, put_be16, put_bytes, skip, splice,
    tail,
};
use crate::ParseError;

pub mod flags;
pub mod inner_proto;

verus! {

broadcast use crate::wire::group_field_lengths;

/// Destination UDP port that identifies Andromeda-encapsulated traffic on the wire.
/// (VXLAN uses 4789, GENEVE 6081; we deliberately pick our own.)
pub const ANDROMEDA_UDP_PORT: u16 = 43481;

/// Current header version.
pub const ANDROMEDA_VERSION: u8 = 1;

/// Size of the Andromeda header itself.
pub const ANDROMEDA_HDR_LEN: usize = 8;

/// Total bytes of encapsulation added around an inner L2 frame.
pub const OVERLAY_OVERHEAD: usize = ETH_HDR_LEN + IPV4_MIN_HDR_LEN + UDP_HDR_LEN
    + ANDROMEDA_HDR_LEN;

/// Decoded Andromeda header.
#[derive(Clone, Copy, Debug, PartialEq, Eq, Structural)]
pub struct AndromedaHdr {
    pub version: u8,
    pub flags: u8,
    pub inner_proto: u8,
    pub flow_hash: u16,
    pub vni: u32,  // 24-bit
    pub hop_limit: u8,
}

/// The eight bytes of the header `h`. Each field keeps as many low bits as it has
/// room for.
pub open spec fn header_bytes(h: AndromedaHdr) -> Seq<u8> {
    seq![((h.version % 16) * 16 + h.flags % 16) as u8, h.inner_proto] + be16_bytes(h.flow_hash) + seq![
        ((h.vni / 0x1_0000) % 256) as u8,
        ((h.vni / 0x100) % 256) as u8,
        (h.vni % 256) as u8,
        h.hop_limit,
    ]
}

/// The fields of the header at the start of `s`.
pub open spec fn header_at(s: Seq<u8>) -> AndromedaHdr {
    AndromedaHdr {
        version: (s[0] / 16) as u8,
        flags: (s[0] % 16) as u8,
        inner_proto: s[1],
        flow_hash: be16(s, 2),
        vni: (s[4] * 0x1_0000 + s[5] * 0x100 + s[6]) as u32,
        hop_limit: s[7],
    }
}

/// Why `s` does not start with an Andromeda header; `None` if it does.
pub open spec fn header_error(s: Seq<u8>) -> Option<ParseError> {
    if s.len() < ANDROMEDA_HDR_LEN {
        Some(
            ParseError::TooShort { what: "andromeda", need: ANDROMEDA_HDR_LEN, got: s.len() as usize },
        )
    } else if s[0] / 16 != ANDROMEDA_VERSION {
        Some(ParseError::BadVersion { what: "andromeda", version: (s[0] / 16) as u8 })
    } else {
        None
    }
}

/// The header of a tenant frame in the network `vni`.
pub open spec fn data_header(vni: u32, flow_hash: u16) -> AndromedaHdr {
    AndromedaHdr {
        version: ANDROMEDA_VERSION,
        flags: 0,
        inner_proto: inner_proto::ETHERNET,
        flow_hash,
        vni: vni % 0x100_0000,
        hop_limit: 64,
    }
}

impl AndromedaHdr {
    #[must_use]
    pub fn new(vni: u32, flow_hash: u16) -> (r: Self)
        ensures
            r == data_header(vni, flow_hash),
    {
        Self {
            version: ANDROMEDA_VERSION,
            flags: 0,
            inner_proto: inner_proto::ETHERNET,
            flow_hash,
            vni: vni % 0x100_0000,
            hop_limit: 64,
        }
    }

    #[must_use]
    pub fn is_control(&self) -> (r: bool)
        ensures
            r == (self.flags & flags::CONTROL != 0),
    {
        self.flags & flags::CONTROL != 0
    }

    /// Serialize into the first 8 bytes of `out`.
    pub fn encode(&self, out: &mut [u8])
        requires
            old(out)@.len() >= ANDROMEDA_HDR_LEN,
        ensures
            final(out)@ == splice(old(out)@, 0, header_bytes(*self)),
    {
        out[0] = (self.version % 16) * 16 + self.flags % 16;
        out[1] = self.inner_proto;
        put_be16(out, 2, self.flow_hash);
        out[4] = ((self.vni / 0x1_0000) % 256) as u8;
        out[5] = ((self.vni / 0x100) % 256) as u8;
        out[6] = (self.vni % 256) as u8;
        out[7] = self.hop_limit;
        assert(out@ =~= splice(old(out)@, 0, header_bytes(*self)));
    }

    /// Parse from the first 8 bytes of `buf`.
    pub fn decode(buf: &[u8]) -> (r: Result<Self, ParseError>)
        ensures
            match header_error(buf@) {
                None => r == Ok::<Self, ParseError>(header_at(buf@)),
                Some(e) => r == Err::<Self, ParseError>(e),
            },
    {
        if buf.len() < ANDROMEDA_HDR_LEN {
            return Err(
                ParseError::TooShort { what: "andromeda", need: ANDROMEDA_HDR_LEN, got: buf.len() },
            );
        }
        let version: u8 = buf[0] / 16;
        if version != ANDROMEDA_VERSION {
            return Err(ParseError::BadVersion { what: "andromeda", version });
        }
        Ok(
            Self {
                version,
                flags: buf[0] % 16,
                inner_proto: buf[1],
                flow_hash: get_be16(buf, 2),
                vni: buf[4] as u32 * 0x1_0000 + buf[5] as u32 * 0x100 + buf[6] as u32,
                hop_limit: buf[7],
            },
        )
    }
}

/// **The header survives a round trip**: what was encoded decodes to the same
/// header, for all field values within their bit widths.
pub proof fn law_header_round_trip(h: AndromedaHdr)
    requires
        h.version == ANDROMEDA_VERSION,
        h.flags < 16,
        h.vni < 0x100_0000,
    ensures
        header_error(header_bytes(h)) is None,
        header_at(header_bytes(h)) == h,
{
    lemma_be16_read(header_bytes(h), 2, h.flow_hash);
}

/// The FNV-1a hash of `s`.
pub open spec fn fnv(s: Seq<u8>) -> u32
    decreases s.len(),
{
    if s.len() == 0 {
        0x811c_9dc5
    } else {
        (((fnv(s.drop_last()) ^ (s.last() as u32)) * 0x0100_0193) % 0x1_0000_0000) as u32
    }
}

/// The bytes that are hashed for a flow.
pub open spec fn flow_key(
    src: Ipv4Addr,
    dst: Ipv4Addr,
    protocol: u8,
    src_port: u16,
    dst_port: u16,
) -> Seq<u8> {
    be32_bytes(src.bits) + be32_bytes(dst.bits) + seq![protocol] + be16_bytes(src_port)
        + be16_bytes(dst_port)
}

/// A 32-bit hash folded to 16 bits.
pub open spec fn fold_hash(h: u32) -> u16 {
    ((h / 0x1_0000) as u16) ^ ((h % 0x1_0000) as u16)
}

/// A 16-bit flow hash over the inner 5-tuple, used to pick an outer path/node.
/// FNV-1a folded to 16 bits — cheap, stable, and good enough for ECMP spread.
#[must_use]
pub fn flow_hash(src: Ipv4Addr, dst: Ipv4Addr, protocol: u8, src_port: u16, dst_port: u16) -> (r:
    u16)
    ensures
        r == fold_hash(fnv(flow_key(src, dst, protocol, src_port, dst_port))),
{
    let s: [u8; 4] = src.octets();
    let d: [u8; 4] = dst.octets();
    let key: [u8; 13] = [
        s[0],
        s[1],
        s[2],
        s[3],
        d[0],
        d[1],
        d[2],
        d[3],
        protocol,
        (src_port / 256) as u8,
        (src_port % 256) as u8,
        (dst_port / 256) as u8,
        (dst_port % 256) as u8,
    ];
    let ghost want = flow_key(src, dst, protocol, src_port, dst_port);
    proof {
        reveal(be16_bytes);
        assert(key@ =~= want);
    }
    let mut h: u32 = 0x811c_9dc5;
    let mut i: usize = 0;
    while i < 13
        invariant
            i <= 13,
            key@ == want,
            want.len() == 13,
            h == fnv(want.take(i as int)),
        decreases 13 - i,
    {
        assert(want.take(i + 1).drop_last() =~= want.take(i as int));
        h = (h ^ (key[i] as u32)).wrapping_mul(0x0100_0193);
        i = i + 1;
    }
    assert(want.take(13) =~= want);
    ((h / 0x1_0000) as u16) ^ ((h % 0x1_0000) as u16)
}

/// Parameters for one encapsulation.
#[derive(Clone, Copy, Debug)]
pub struct EncapParams {
    pub outer_src_mac: MacAddr,
    pub outer_dst_mac: MacAddr,
    pub outer_src_ip: Ipv4Addr,
    pub outer_dst_ip: Ipv4Addr,
    pub vni: u32,
    pub flow_hash: u16,
    /// Outer IPv4 identification field (bump per packet if you like).
    pub ip_id: u16,
    /// Compute the outer UDP checksum; otherwise 0 is transmitted, which is legal for
    /// IPv4 tunnels and spares a pass over the payload.
    pub outer_udp_checksum: bool,
}

/// The outer UDP source port: the flow hash, kept in the ephemeral range by its two
/// top bits.
pub open spec fn entropy_port(flow_hash: u16) -> u16 {
    (0xc000 + flow_hash % 0x4000) as u16
}

/// The length of the outer UDP payload around `n` inner bytes, as its field counts.
pub open spec fn outer_udp_len(n: nat) -> u16 {
    ((ANDROMEDA_HDR_LEN + n) % 0x1_0000) as u16
}

/// The length of the outer IPv4 payload around `n` inner bytes, as its field counts.
pub open spec fn outer_ip_len(n: nat) -> u16 {
    ((UDP_HDR_LEN + outer_udp_len(n)) % 0x1_0000) as u16
}

/// The outer headers around `n` inner bytes, with a zero UDP checksum.
pub open spec fn outer_headers(p: EncapParams, n: nat) -> Seq<u8> {
    eth_header(p.outer_dst_mac@, p.outer_src_mac@, ethertype::IPV4) + full_header(
        p.outer_src_ip,
        p.outer_dst_ip,
        ipv4::proto::UDP,
        64,
        p.ip_id,
        true,
        outer_ip_len(n),
    ) + udp_header(entropy_port(p.flow_hash), ANDROMEDA_UDP_PORT, outer_udp_len(n)) + header_bytes(
        data_header(p.vni, p.flow_hash),
    )
}

/// The encapsulated frame with a zero outer UDP checksum.
pub open spec fn bare_frame(p: EncapParams, inner: Seq<u8>) -> Seq<u8> {
    outer_headers(p, inner.len()) + inner
}

/// The frame that encapsulates `inner`.
#[verifier::opaque]
pub open spec fn overlay_frame(p: EncapParams, inner: Seq<u8>) -> Seq<u8> {
    let bare = bare_frame(p, inner);
    if p.outer_udp_checksum {
        splice(bare, 40, be16_bytes(udp_checksum(p.outer_src_ip, p.outer_dst_ip, tail(bare, 34))))
    } else {
        bare
    }
}

/// The bytes that `n` inner bytes need, as far as a length can count.
pub open spec fn encap_need(n: nat) -> usize {
    if OVERLAY_OVERHEAD + n > usize::MAX {
        usize::MAX
    } else {
        (OVERLAY_OVERHEAD + n) as usize
    }
}

/// Whether `room` bytes hold `n` inner bytes and the headers.
pub open spec fn encap_fits(room: nat, n: nat) -> bool {
    OVERLAY_OVERHEAD + n <= room
}

fn put_outer_ip(out: &mut [u8], p: &EncapParams, ip_len: u16)
    requires
        old(out)@.len() >= OVERLAY_OVERHEAD,
    ensures
        final(out)@ == splice(
            old(out)@,
            14,
            full_header(
                p.outer_src_ip,
                p.outer_dst_ip,
                ipv4::proto::UDP,
                64,
                p.ip_id,
                true,
                ip_len,
            ),
        ),
{
    let (_, rest) = out.split_at_mut(ETH_HDR_LEN);
    // DF set: overlay endpoints must not fragment; PMTU is the tenant's problem.
    ipv4::write_header(
        rest,
        p.outer_src_ip,
        p.outer_dst_ip,
        ipv4::proto::UDP,
        64,
        p.ip_id,
        true,
        ip_len,
    );
}

fn put_outer_udp(out: &mut [u8], p: &EncapParams, udp_len: u16)
    requires
        old(out)@.len() >= OVERLAY_OVERHEAD,
    ensures
        final(out)@ == splice(
            old(out)@,
            34,
            udp_header(entropy_port(p.flow_hash), ANDROMEDA_UDP_PORT, udp_len),
        ),
{
    let (_, rest) = out.split_at_mut(34);
    udp::write_header(rest, 0xc000 + p.flow_hash % 0x4000, ANDROMEDA_UDP_PORT, udp_len);
}

fn put_andromeda(out: &mut [u8], p: &EncapParams)
    requires
        old(out)@.len() >= OVERLAY_OVERHEAD,
    ensures
        final(out)@ == splice(old(out)@, 42, header_bytes(data_header(p.vni, p.flow_hash))),
{
    let (_, rest) = out.split_at_mut(42);
    AndromedaHdr::new(p.vni, p.flow_hash).encode(rest);
}

/// Encapsulate the `inner_len` bytes that already stand at `OVERLAY_OVERHEAD` in
/// `out`: the outer headers are written in front of them. Returns the length of the
/// whole frame.
pub fn encap_in_place(out: &mut [u8], inner_len: usize, p: &EncapParams) -> (r: Result<
    usize,
    ParseError,
>)
    ensures
        !encap_fits(old(out)@.len(), inner_len as nat) ==> r == Err::<usize, ParseError>(
            ParseError::BufferTooSmall {
                need: encap_need(inner_len as nat),
                got: old(out)@.len() as usize,
            },
        ) && final(out)@ == old(out)@,
        encap_fits(old(out)@.len(), inner_len as nat) ==> r == Ok::<usize, ParseError>(
            (OVERLAY_OVERHEAD + inner_len) as usize,
        ) && final(out)@ == splice(
            old(out)@,
            0,
            overlay_frame(
                *p,
                old(out)@.subrange(OVERLAY_OVERHEAD as int, OVERLAY_OVERHEAD + inner_len),
            ),
        ),
{
    let room: usize = out.len();
    if room < OVERLAY_OVERHEAD || room - OVERLAY_OVERHEAD < inner_len {
        return Err(
            ParseError::BufferTooSmall {
                need: OVERLAY_OVERHEAD.saturating_add(inner_len),
                got: room,
            },
        );
    }
    let total: usize = OVERLAY_OVERHEAD + inner_len;
    let ghost inner = out@.subrange(OVERLAY_OVERHEAD as int, total as int);

    // L4 payload length = UDP header + Andromeda header + inner frame.
    let udp_len: u16 = ((ANDROMEDA_HDR_LEN + inner_len) % 0x1_0000) as u16;
    let ip_len: u16 = 8u16.wrapping_add(udp_len);

    ethernet::write_header(out, p.outer_dst_mac, p.outer_src_mac, ethertype::IPV4);
    put_outer_ip(out, p, ip_len);
    put_outer_udp(out, p, udp_len);
    put_andromeda(out, p);
    proof {
        assert(ip_len == outer_ip_len(inner_len as nat));
        assert(out@ =~= splice(old(out)@, 0, bare_frame(*p, inner)));
    }
    if p.outer_udp_checksum {
        // Over pseudo-header + (udp hdr + andromeda + inner).
        let c: u16 = udp::compute_checksum(p.outer_src_ip, p.outer_dst_ip, &out[34..total]);
        assert(out@.subrange(34, total as int) =~= tail(bare_frame(*p, inner), 34));
        put_be16(out, 40, c);
    }
    proof {
        reveal(overlay_frame);
    }
    assert(out@ =~= splice(old(out)@, 0, overlay_frame(*p, inner)));
    Ok(total)
}

/// Encapsulate `inner` (a complete Ethernet frame) into `out`, returning the
/// number of bytes written. `out` must be at least `OVERLAY_OVERHEAD + inner.len()`.
pub fn encap(out: &mut [u8], inner: &[u8], p: &EncapParams) -> (r: Result<usize, ParseError>)
    ensures
        !encap_fits(old(out)@.len(), inner@.len()) ==> r == Err::<usize, ParseError>(
            ParseError::BufferTooSmall {
                need: encap_need(inner@.len()),
                got: old(out)@.len() as usize,
            },
        ) && final(out)@ == old(out)@,
        encap_fits(old(out)@.len(), inner@.len()) ==> r == Ok::<usize, ParseError>(
            (OVERLAY_OVERHEAD + inner@.len()) as usize,
        ) && final(out)@ == splice(old(out)@, 0, overlay_frame(*p, inner@)),
{
    let room: usize = out.len();
    let n: usize = inner.len();
    if room >= OVERLAY_OVERHEAD && room - OVERLAY_OVERHEAD >= n {
        put_bytes(out, OVERLAY_OVERHEAD, inner);
        assert(out@.subrange(OVERLAY_OVERHEAD as int, OVERLAY_OVERHEAD + n) =~= inner@);
    }
    let r: Result<usize, ParseError> = encap_in_place(out, n, p);
    proof {
        law_overlay_length(*p, inner@);
    }
    assert(r is Ok ==> out@ =~= splice(old(out)@, 0, overlay_frame(*p, inner@)));
    r
}

/// A decapsulated Andromeda packet: the header plus a slice pointing at the inner frame.
pub struct Decapsulated<'a> {
    pub header: AndromedaHdr,
    pub inner: &'a [u8],
    pub outer_src_ip: Ipv4Addr,
    pub outer_dst_ip: Ipv4Addr,
}

/// What decapsulation takes out of a frame: header, inner bytes, outer source and
/// destination.
pub struct Parcel {
    pub header: AndromedaHdr,
    pub inner: Seq<u8>,
    pub outer_src_ip: Ipv4Addr,
    pub outer_dst_ip: Ipv4Addr,
}

impl<'a> View for Decapsulated<'a> {
    type V = Parcel;

    open spec fn view(&self) -> Parcel {
        Parcel {
            header: self.header,
            inner: self.inner@,
            outer_src_ip: self.outer_src_ip,
            outer_dst_ip: self.outer_dst_ip,
        }
    }
}

/// What decapsulating the frame `s` gives: an error on malformed headers, `Ok(None)`
/// where the frame is not Andromeda traffic.
#[verifier::opaque]
pub open spec fn parcel_of(s: Seq<u8>) -> Result<Option<Parcel>, ParseError> {
    let ip = tail(s, ETH_HDR_LEN as int);
    let l4 = l4_of(ip);
    let body = tail(l4, UDP_HDR_LEN as int);
    if s.len() < ETH_HDR_LEN {
        Err(eth_too_short(s.len()))
    } else if be16(s, 12) != ethertype::IPV4 {
        Ok(None)
    } else if ipv4_error(ip) is Some {
        Err(ipv4_error(ip).unwrap())
    } else if ip[9] != ipv4::proto::UDP {
        Ok(None)
    } else if l4.len() < UDP_HDR_LEN {
        Err(udp_too_short(l4.len()))
    } else if be16(l4, 2) != ANDROMEDA_UDP_PORT {
        Ok(None)
    } else if header_error(body) is Some {
        Err(header_error(body).unwrap())
    } else {
        Ok(
            Some(
                Parcel {
                    header: header_at(body),
                    inner: tail(body, ANDROMEDA_HDR_LEN as int),
                    outer_src_ip: addr_at(ip, 12),
                    outer_dst_ip: addr_at(ip, 16),
                },
            ),
        )
    }
}

/// Attempt to decapsulate a received outer Ethernet frame. Returns `Ok(None)` if
/// the frame is simply not Andromeda traffic (wrong ethertype/proto/port) so the
/// caller can fall through to other handling; `Err` only on malformed headers.
pub fn decap(frame: &[u8]) -> (r: Result<Option<Decapsulated<'_>>, ParseError>)
    ensures
        match parcel_of(frame@) {
            Err(e) => r matches Err(x) && x == e,
            Ok(None) => r matches Ok(x) && x is None,
            Ok(Some(p)) => r matches Ok(x) && x matches Some(d) && d@ == p,
        },
{
    proof {
        reveal(parcel_of);
    }
    let eth: EthFrame = match EthFrame::parse(frame) {
        Ok(v) => v,
        Err(e) => {
            return Err(e);
        },
    };
    if eth.ethertype() != ethertype::IPV4 {
        return Ok(None);
    }
    let ip: Ipv4View = match Ipv4View::parse(eth.payload()) {
        Ok(v) => v,
        Err(e) => {
            return Err(e);
        },
    };
    if ip.protocol() != ipv4::proto::UDP {
        return Ok(None);
    }
    let l4: &[u8] = ip.payload();
    let udp_v: UdpView = match UdpView::parse(l4) {
        Ok(v) => v,
        Err(e) => {
            return Err(e);
        },
    };
    if udp_v.dst_port() != ANDROMEDA_UDP_PORT {
        return Ok(None);
    }
    let after_udp: &[u8] = skip(l4, UDP_HDR_LEN);
    let header: AndromedaHdr = match AndromedaHdr::decode(after_udp) {
        Ok(h) => h,
        Err(e) => {
            return Err(e);
        },
    };
    let inner: &[u8] = skip(after_udp, ANDROMEDA_HDR_LEN);
    Ok(Some(Decapsulated { header, inner, outer_src_ip: ip.src(), outer_dst_ip: ip.dst() }))
}

/// The frame that encapsulates `inner`, layer by layer.
pub proof fn lemma_overlay_layers(p: EncapParams, inner: Seq<u8>)
    ensures
        ({
            let f = overlay_frame(p, inner);
            let ip = tail(f, 14);
            let l4 = tail(ip, 20);
            &&& f.len() == OVERLAY_OVERHEAD + inner.len()
            &&& be16(f, 12) == ethertype::IPV4
            &&& ip == splice(
                ip,
                0,
                full_header(
                    p.outer_src_ip,
                    p.outer_dst_ip,
                    ipv4::proto::UDP,
                    64,
                    p.ip_id,
                    true,
                    outer_ip_len(inner.len()),
                ),
            )
            &&& be16(l4, 0) == entropy_port(p.flow_hash)
            &&& be16(l4, 2) == ANDROMEDA_UDP_PORT
            &&& tail(l4, 8) == header_bytes(data_header(p.vni, p.flow_hash)) + inner
        }),
{
    reveal(overlay_frame);
    let f = overlay_frame(p, inner);
    let ip = tail(f, 14);
    let l4 = tail(ip, 20);
    let full = full_header(
        p.outer_src_ip,
        p.outer_dst_ip,
        ipv4::proto::UDP,
        64,
        p.ip_id,
        true,
        outer_ip_len(inner.len()),
    );
    assert(full.len() == 20);
    lemma_be16_read(f, 12, ethertype::IPV4);
    assert(ip =~= splice(ip, 0, full));
    lemma_be16_read(l4, 0, entropy_port(p.flow_hash));
    lemma_be16_read(l4, 2, ANDROMEDA_UDP_PORT);
    assert(tail(l4, 8) =~= header_bytes(data_header(p.vni, p.flow_hash)) + inner);
}

/// **Encapsulation adds the overhead**, and no more.
pub proof fn law_overlay_length(p: EncapParams, inner: Seq<u8>)
    ensures
        overlay_frame(p, inner).len() == OVERLAY_OVERHEAD + inner.len(),
{
    lemma_overlay_layers(p, inner);
}

/// **Encapsulation is lossless.** Decapsulating an encapsulated frame recovers the
/// exact inner frame, the network id, the flow hash and the outer addresses.
///
/// Left out are the few lengths whose IPv4 total length field wraps round to less
/// than a header.
pub proof fn law_encap_decap_round_trip(p: EncapParams, inner: Seq<u8>)
    requires
        (36 + inner.len()) % 0x1_0000 >= 20,
    ensures
        parcel_of(overlay_frame(p, inner)) == Ok::<Option<Parcel>, ParseError>(
            Some(
                Parcel {
                    header: data_header(p.vni, p.flow_hash),
                    inner,
                    outer_src_ip: p.outer_src_ip,
                    outer_dst_ip: p.outer_dst_ip,
                },
            ),
        ),
{
    reveal(parcel_of);
    let f = overlay_frame(p, inner);
    let ip = tail(f, 14);
    let l4 = tail(ip, 20);
    let body = tail(l4, 8);
    let h = data_header(p.vni, p.flow_hash);
    lemma_overlay_layers(p, inner);
    law_written_header_is_valid(
        ip,
        p.outer_src_ip,
        p.outer_dst_ip,
        ipv4::proto::UDP,
        64,
        p.ip_id,
        true,
        outer_ip_len(inner.len()),
    );
    assert(l4_of(ip) == l4);
    law_header_round_trip(h);
    assert(body[0] == header_bytes(h)[0]);
    assert(body[1] == header_bytes(h)[1]);
    assert(body[2] == header_bytes(h)[2]);
    assert(body[3] == header_bytes(h)[3]);
    assert(body[4] == header_bytes(h)[4]);
    assert(body[5] == header_bytes(h)[5]);
    assert(body[6] == header_bytes(h)[6]);
    assert(body[7] == header_bytes(h)[7]);
    assert(be16(body, 2) == be16(header_bytes(h), 2));
    assert(header_at(body) == h);
    assert(tail(body, 8) =~= inner);
}

/// **The outer checksums are right.** The outer IPv4 header verifies, and the outer
/// UDP checksum is what a computation from scratch gives where it is asked for, and
/// 0 where it is not. The flow hash is carried in the outer source port.
pub proof fn law_outer_checksums(p: EncapParams, inner: Seq<u8>)
    ensures
        ({
            let ip = tail(overlay_frame(p, inner), 14);
            let l4 = tail(ip, 20);
            &&& ihl_of(ip) == 20
            &&& header_valid(ip)
            &&& header_sound(ip)
            &&& p.outer_udp_checksum ==> be16(l4, 6) == udp_checksum(
                p.outer_src_ip,
                p.outer_dst_ip,
                udp_blank(l4),
            )
            &&& p.outer_udp_checksum ==> be16(l4, 6) != 0
            &&& !p.outer_udp_checksum ==> be16(l4, 6) == 0
            &&& be16(l4, 0) == entropy_port(p.flow_hash)
        }),
{
    reveal(overlay_frame);
    let bare = bare_frame(p, inner);
    let f = overlay_frame(p, inner);
    let ip = tail(f, 14);
    let l4 = tail(ip, 20);
    lemma_overlay_layers(p, inner);
    law_written_header_is_valid(
        ip,
        p.outer_src_ip,
        p.outer_dst_ip,
        ipv4::proto::UDP,
        64,
        p.ip_id,
        true,
        outer_ip_len(inner.len()),
    );
    let c = if p.outer_udp_checksum {
        udp_checksum(p.outer_src_ip, p.outer_dst_ip, tail(bare, 34))
    } else {
        0
    };
    lemma_be16_read(l4, 6, c);
    assert(udp_blank(l4) =~= tail(bare, 34));
}

} // verus!
