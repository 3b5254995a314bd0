//! What to change in a packet, and changing it.

use vstd::prelude::*;
use crate::addr::Ipv4Addr;
use crate::ipv4::{
    addr_at, dst_rewritten, header_sound, header_valid, ihl_of, ipv4_error,
    law_addr_rewrite_keeps_checksum, proto, src_rewritten, Ipv4View, Ipv4ViewMut,
};
use crate::tcp::{
    law_tcp_dst_addr_patch, law_tcp_dst_port_set, law_tcp_src_addr_patch, law_tcp_src_port_set,
    tcp_dst_set, tcp_error, tcp_patched, tcp_patched_dword, tcp_sound, tcp_src_set, TcpViewMut,
    TCP_MIN_HDR_LEN,
};
use crate::udp::{
    law_udp_dst_addr_patch, law_udp_dst_port_set, law_udp_src_addr_patch, law_udp_src_port_set,
    udp_dst_set, udp_patched, udp_patched_dword, udp_sound, udp_src_set, udp_too_short, UdpViewMut,
    UDP_HDR_LEN,
};
use crate::wire::{be16, be16_bytes, lemma_be16_round_trip, splice};
use crate::{l4_of, tuple_of, FiveTuple, ParseError};

verus! {

broadcast use crate::wire::group_field_lengths;

/// A description of the header edits to apply to a packet. `None` fields are left as-is.
#[derive(Clone, Copy, Debug, PartialEq, Eq)]
pub struct Rewrite {
    pub new_src_ip: Option<Ipv4Addr>,
    pub new_dst_ip: Option<Ipv4Addr>,
    pub new_src_port: Option<u16>,
    pub new_dst_port: Option<u16>,
}

/// No edit at all.
pub open spec fn no_rewrite() -> Rewrite {
    Rewrite { new_src_ip: None, new_dst_ip: None, new_src_port: None, new_dst_port: None }
}

/// The source becomes `ip:port`.
pub open spec fn source_to(ip: Ipv4Addr, port: u16) -> Rewrite {
    Rewrite {
        new_src_ip: Some(ip),
        new_dst_ip: None,
        new_src_port: Some(port),
        new_dst_port: None,
    }
}

/// The destination becomes `ip:port`.
pub open spec fn dest_to(ip: Ipv4Addr, port: u16) -> Rewrite {
    Rewrite {
        new_src_ip: None,
        new_dst_ip: Some(ip),
        new_src_port: None,
        new_dst_port: Some(port),
    }
}

impl Default for Rewrite {
    fn default() -> (r: Self)
        ensures
            r == no_rewrite(),
    {
        Rewrite { new_src_ip: None, new_dst_ip: None, new_src_port: None, new_dst_port: None }
    }
}

impl Rewrite {
    #[must_use]
    pub fn is_noop(&self) -> (r: bool)
        ensures
            r == (*self == no_rewrite()),
    {
        self.new_src_ip.is_none() && self.new_dst_ip.is_none() && self.new_src_port.is_none()
            && self.new_dst_port.is_none()
    }
}

/// The source address that `s` has after `rw`.
pub open spec fn new_src_of(s: Seq<u8>, rw: Rewrite) -> Ipv4Addr {
    match rw.new_src_ip {
        Some(a) => a,
        None => addr_at(s, 12),
    }
}

/// The destination address that `s` has after `rw`.
pub open spec fn new_dst_of(s: Seq<u8>, rw: Rewrite) -> Ipv4Addr {
    match rw.new_dst_ip {
        Some(a) => a,
        None => addr_at(s, 16),
    }
}

/// The packet `s` with its addresses rewritten and the header checksum adjusted.
pub open spec fn readdressed(s: Seq<u8>, rw: Rewrite) -> Seq<u8> {
    let a = match rw.new_src_ip {
        Some(ip) => src_rewritten(s, ip.bits),
        None => s,
    };
    match rw.new_dst_ip {
        Some(ip) => dst_rewritten(a, ip.bits),
        None => a,
    }
}

/// The TCP segment `s` adjusted for its addresses going from `src`, `dst` to `src2`,
/// `dst2`, and its ports rewritten.
pub open spec fn tcp_rewritten(
    s: Seq<u8>,
    src: Ipv4Addr,
    src2: Ipv4Addr,
    dst: Ipv4Addr,
    dst2: Ipv4Addr,
    rw: Rewrite,
) -> Seq<u8> {
    let a = if src2 != src {
        tcp_patched_dword(s, src.bits, src2.bits)
    } else {
        s
    };
    let b = if dst2 != dst {
        tcp_patched_dword(a, dst.bits, dst2.bits)
    } else {
        a
    };
    let c = match rw.new_src_port {
        Some(p) => tcp_src_set(b, p),
        None => b,
    };
    match rw.new_dst_port {
        Some(p) => tcp_dst_set(c, p),
        None => c,
    }
}

/// The same for the UDP datagram `s`.
pub open spec fn udp_rewritten(
    s: Seq<u8>,
    src: Ipv4Addr,
    src2: Ipv4Addr,
    dst: Ipv4Addr,
    dst2: Ipv4Addr,
    rw: Rewrite,
) -> Seq<u8> {
    let a = if src2 != src {
        udp_patched_dword(s, src.bits, src2.bits)
    } else {
        s
    };
    let b = if dst2 != dst {
        udp_patched_dword(a, dst.bits, dst2.bits)
    } else {
        a
    };
    let c = match rw.new_src_port {
        Some(p) => udp_src_set(b, p),
        None => b,
    };
    match rw.new_dst_port {
        Some(p) => udp_dst_set(c, p),
        None => c,
    }
}

/// The L4 part of the packet `s` after `rw`. Protocols without ports do not cover the
/// addresses and stay as they are.
pub open spec fn l4_rewritten(s: Seq<u8>, rw: Rewrite) -> Seq<u8> {
    let (src, src2) = (addr_at(s, 12), new_src_of(s, rw));
    let (dst, dst2) = (addr_at(s, 16), new_dst_of(s, rw));
    if s[9] == proto::TCP {
        tcp_rewritten(l4_of(s), src, src2, dst, dst2, rw)
    } else if s[9] == proto::UDP {
        udp_rewritten(l4_of(s), src, src2, dst, dst2, rw)
    } else {
        l4_of(s)
    }
}

/// Why `rw` cannot be applied to the L4 part of `s`; `None` if it can.
pub open spec fn l4_error(s: Seq<u8>) -> Option<ParseError> {
    if s[9] == proto::TCP {
        tcp_error(l4_of(s))
    } else if s[9] == proto::UDP && l4_of(s).len() < UDP_HDR_LEN {
        Some(udp_too_short(l4_of(s).len()))
    } else {
        None
    }
}

/// What applying `rw` to the packet `s` returns.
pub open spec fn apply_result(s: Seq<u8>, rw: Rewrite) -> Result<(), ParseError> {
    if rw == no_rewrite() {
        Ok(())
    } else if ipv4_error(s) is Some {
        Err(ipv4_error(s).unwrap())
    } else if l4_error(s) is Some {
        Err(l4_error(s).unwrap())
    } else {
        Ok(())
    }
}

/// What applying `rw` makes of the packet `s`. The addresses are rewritten before the
/// L4 part is looked at.
pub open spec fn applied(s: Seq<u8>, rw: Rewrite) -> Seq<u8> {
    if rw == no_rewrite() || ipv4_error(s) is Some {
        s
    } else if l4_error(s) is Some {
        readdressed(s, rw)
    } else {
        readdressed(s, rw).subrange(0, ihl_of(s) as int) + l4_rewritten(s, rw)
    }
}

/// Rewriting addresses changes nothing but the addresses and the header checksum.
proof fn lemma_readdressed(s: Seq<u8>, rw: Rewrite)
    requires
        ipv4_error(s) is None,
    ensures
        ({
            let t = readdressed(s, rw);
            &&& ipv4_error(t) is None
            &&& t.len() == s.len()
            &&& ihl_of(t) == ihl_of(s)
            &&& t[9] == s[9]
            &&& l4_of(t) == l4_of(s)
            &&& addr_at(t, 12) == new_src_of(s, rw)
            &&& addr_at(t, 16) == new_dst_of(s, rw)
            &&& header_valid(t) == header_valid(s)
            &&& header_sound(s) ==> header_sound(t)
        }),
{
    let a = match rw.new_src_ip {
        Some(ip) => src_rewritten(s, ip.bits),
        None => s,
    };
    let t = readdressed(s, rw);
    if let Some(ip) = rw.new_src_ip {
        law_addr_rewrite_keeps_checksum(s, 12, ip.bits);
    }
    assert(forall|i: int|
        0 <= i < s.len() && !(10 <= i < 16) ==> #[trigger] a[i] == s[i]);
    assert(a[16] == s[16] && a[17] == s[17] && a[18] == s[18] && a[19] == s[19]);
    if let Some(ip) = rw.new_dst_ip {
        law_addr_rewrite_keeps_checksum(a, 16, ip.bits);
    }
    assert(forall|i: int| 0 <= i < s.len() && !(10 <= i < 20) ==> #[trigger] t[i] == s[i]);
    assert(t[12] == a[12] && t[13] == a[13] && t[14] == a[14] && t[15] == a[15]);
    assert(t[0] == s[0]);
    assert(l4_of(t) =~= l4_of(s));
}

/// Apply a [`Rewrite`] to an IPv4 packet in place, fixing all affected checksums
/// incrementally. `pkt` must start at the IPv4 header.
pub fn apply(pkt: &mut [u8], rw: &Rewrite) -> (r: Result<(), ParseError>)
    ensures
        r == apply_result(old(pkt)@, *rw),
        final(pkt)@ == applied(old(pkt)@, *rw),
{
    if rw.is_noop() {
        return Ok(());
    }

    // Snapshot what we need before taking the mutable borrow.
    let (ihl, protocol, old_src, old_dst): (usize, u8, u32, u32) = match Ipv4View::parse(pkt) {
        Ok(v) => (v.ihl_bytes(), v.protocol(), v.src().bits, v.dst().bits),
        Err(e) => {
            return Err(e);
        },
    };
    proof {
        lemma_readdressed(pkt@, *rw);
    }
    // 1) Rewrite addresses in the IPv4 header (fixes the IPv4 header checksum).
    let (new_src, new_dst): (u32, u32) = match Ipv4ViewMut::parse(pkt) {
        Ok(mut ip) => {
            let mut now_src: u32 = old_src;
            let mut now_dst: u32 = old_dst;
            if let Some(s) = rw.new_src_ip {
                let (_, n) = ip.set_src(s);
                now_src = n;
            }
            if let Some(d) = rw.new_dst_ip {
                let (_, n) = ip.set_dst(d);
                now_dst = n;
            }
            (now_src, now_dst)
        },
        Err(e) => {
            return Err(e);
        },
    };
    assert(pkt@ =~= readdressed(old(pkt)@, *rw));

    // 2) Patch the L4 checksum for the address deltas (pseudo-header) and ports.
    let (_, l4) = pkt.split_at_mut(ihl);
    if protocol == proto::TCP {
        let mut t: TcpViewMut = match TcpViewMut::parse(l4) {
            Ok(t) => t,
            Err(e) => {
                return Err(e);
            },
        };
        if new_src != old_src {
            t.patch_checksum_dword(old_src, new_src);
        }
        if new_dst != old_dst {
            t.patch_checksum_dword(old_dst, new_dst);
        }
        if let Some(p) = rw.new_src_port {
            t.set_src_port(p);
        }
        if let Some(p) = rw.new_dst_port {
            t.set_dst_port(p);
        }
    } else if protocol == proto::UDP {
        let mut u: UdpViewMut = match UdpViewMut::parse(l4) {
            Ok(u) => u,
            Err(e) => {
                return Err(e);
            },
        };
        if new_src != old_src {
            u.patch_checksum_dword(old_src, new_src);
        }
        if new_dst != old_dst {
            u.patch_checksum_dword(old_dst, new_dst);
        }
        if let Some(p) = rw.new_src_port {
            u.set_src_port(p);
        }
        if let Some(p) = rw.new_dst_port {
            u.set_dst_port(p);
        }
    }
    // ICMP and others: the ICMP checksum does not cover IP addresses, so an
    // address-only rewrite needs no L4 fixup. Port fields don't apply.
    Ok(())
}

/// The tuple `t` after `rw`.
pub open spec fn retargeted(t: FiveTuple, rw: Rewrite) -> FiveTuple {
    FiveTuple {
        src_ip: match rw.new_src_ip {
            Some(a) => a,
            None => t.src_ip,
        },
        dst_ip: match rw.new_dst_ip {
            Some(a) => a,
            None => t.dst_ip,
        },
        protocol: t.protocol,
        src_port: match rw.new_src_port {
            Some(p) => p,
            None => t.src_port,
        },
        dst_port: match rw.new_dst_port {
            Some(p) => p,
            None => t.dst_port,
        },
    }
}

proof fn lemma_tcp_patched_take(s: Seq<u8>, m: u16, m2: u16, n: int)
    requires
        TCP_MIN_HDR_LEN <= n <= s.len(),
    ensures
        tcp_patched(s, m, m2).take(n) == tcp_patched(s.take(n), m, m2),
        tcp_patched(s, m, m2).len() == s.len(),
        forall|i: int| 0 <= i < s.len() && !(16 <= i < 18) ==> tcp_patched(s, m, m2)[i] == s[i],
{
    assert(be16(s.take(n), 16) == be16(s, 16));
    assert(tcp_patched(s, m, m2).take(n) =~= tcp_patched(s.take(n), m, m2));
}

proof fn lemma_tcp_patched_dword_take(s: Seq<u8>, m: u32, m2: u32, n: int)
    requires
        TCP_MIN_HDR_LEN <= n <= s.len(),
    ensures
        tcp_patched_dword(s, m, m2).take(n) == tcp_patched_dword(s.take(n), m, m2),
        tcp_patched_dword(s, m, m2).len() == s.len(),
        forall|i: int|
            0 <= i < s.len() && !(16 <= i < 18) ==> tcp_patched_dword(s, m, m2)[i] == s[i],
{
    let mid = tcp_patched(s, (m / 0x1_0000) as u16, (m2 / 0x1_0000) as u16);
    lemma_tcp_patched_take(s, (m / 0x1_0000) as u16, (m2 / 0x1_0000) as u16, n);
    lemma_tcp_patched_take(mid, (m % 0x1_0000) as u16, (m2 % 0x1_0000) as u16, n);
}

proof fn lemma_tcp_src_set_take(s: Seq<u8>, port: u16, n: int)
    requires
        TCP_MIN_HDR_LEN <= n <= s.len(),
    ensures
        tcp_src_set(s, port).take(n) == tcp_src_set(s.take(n), port),
        tcp_src_set(s, port).len() == s.len(),
        forall|i: int|
            2 <= i < s.len() && !(16 <= i < 18) ==> tcp_src_set(s, port)[i] == s[i],
        be16(tcp_src_set(s, port), 0) == port,
{
    let a = splice(s, 0, be16_bytes(port));
    lemma_tcp_patched_take(a, be16(s, 0), port, n);
    assert(a.take(n) =~= splice(s.take(n), 0, be16_bytes(port)));
    assert(be16(s.take(n), 0) == be16(s, 0));
    lemma_be16_round_trip(s, 0, port);
}

proof fn lemma_tcp_dst_set_take(s: Seq<u8>, port: u16, n: int)
    requires
        TCP_MIN_HDR_LEN <= n <= s.len(),
    ensures
        tcp_dst_set(s, port).take(n) == tcp_dst_set(s.take(n), port),
        tcp_dst_set(s, port).len() == s.len(),
        forall|i: int|
            0 <= i < s.len() && !(2 <= i < 4) && !(16 <= i < 18) ==> tcp_dst_set(s, port)[i]
                == s[i],
        be16(tcp_dst_set(s, port), 2) == port,
{
    let a = splice(s, 2, be16_bytes(port));
    lemma_tcp_patched_take(a, be16(s, 2), port, n);
    assert(a.take(n) =~= splice(s.take(n), 2, be16_bytes(port)));
    assert(be16(s.take(n), 2) == be16(s, 2));
    lemma_be16_round_trip(s, 2, port);
}

/// Rewriting a TCP segment gives the ports asked for, leaves the rest of the header
/// alone, and keeps the checksum of its first `n` bytes sound.
proof fn lemma_tcp_rewritten(
    s: Seq<u8>,
    src: Ipv4Addr,
    src2: Ipv4Addr,
    dst: Ipv4Addr,
    dst2: Ipv4Addr,
    rw: Rewrite,
    n: int,
)
    requires
        tcp_error(s) is None,
        TCP_MIN_HDR_LEN <= n <= s.len(),
    ensures
        ({
            let t = tcp_rewritten(s, src, src2, dst, dst2, rw);
            &&& t.len() == s.len()
            &&& tcp_error(t) is None
            &&& be16(t, 0) == match rw.new_src_port {
                Some(p) => p,
                None => be16(s, 0),
            }
            &&& be16(t, 2) == match rw.new_dst_port {
                Some(p) => p,
                None => be16(s, 2),
            }
            &&& n <= 0xffff && tcp_sound(src, dst, s.take(n)) ==> tcp_sound(src2, dst2, t.take(n))
        }),
{
    let a = if src2 != src {
        tcp_patched_dword(s, src.bits, src2.bits)
    } else {
        s
    };
    let b = if dst2 != dst {
        tcp_patched_dword(a, dst.bits, dst2.bits)
    } else {
        a
    };
    let c = match rw.new_src_port {
        Some(p) => tcp_src_set(b, p),
        None => b,
    };
    let sound = n <= 0xffff && tcp_sound(src, dst, s.take(n));
    lemma_tcp_patched_dword_take(s, src.bits, src2.bits, n);
    lemma_tcp_patched_dword_take(a, dst.bits, dst2.bits, n);
    assert(a.len() == s.len() && b.len() == s.len());
    if sound && src2 != src {
        law_tcp_src_addr_patch(src, dst, src2, s.take(n));
    }
    assert(sound ==> tcp_sound(src2, dst, a.take(n)));
    if sound && dst2 != dst {
        law_tcp_dst_addr_patch(src2, dst, dst2, a.take(n));
    }
    assert(sound ==> tcp_sound(src2, dst2, b.take(n)));
    if let Some(p) = rw.new_src_port {
        lemma_tcp_src_set_take(b, p, n);
        if sound {
            law_tcp_src_port_set(src2, dst2, b.take(n), p);
        }
    }
    assert(sound ==> tcp_sound(src2, dst2, c.take(n)));
    if let Some(p) = rw.new_dst_port {
        lemma_tcp_dst_set_take(c, p, n);
        if sound {
            law_tcp_dst_port_set(src2, dst2, c.take(n), p);
        }
    }
    let t = tcp_rewritten(s, src, src2, dst, dst2, rw);
    assert(b[0] == s[0] && b[1] == s[1] && b[2] == s[2] && b[3] == s[3] && b[12] == s[12]);
    assert(c[2] == b[2] && c[3] == b[3] && c[12] == b[12]);
    assert(t[0] == c[0] && t[1] == c[1] && t[12] == c[12]);
}

/// What stands behind the header of a rewritten packet.
proof fn lemma_applied_parts(s: Seq<u8>, rw: Rewrite)
    requires
        ipv4_error(s) is None,
        l4_error(s) is None,
        l4_rewritten(s, rw).len() == l4_of(s).len(),
    ensures
        ({
            let t = applied(s, rw);
            &&& t.len() == s.len()
            &&& ipv4_error(t) is None
            &&& t[9] == s[9]
            &&& ihl_of(t) == ihl_of(s)
            &&& header_valid(t) == header_valid(s)
            &&& header_sound(s) ==> header_sound(t)
            &&& addr_at(t, 12) == new_src_of(s, rw)
            &&& addr_at(t, 16) == new_dst_of(s, rw)
            &&& l4_of(t) == l4_rewritten(s, rw)
        }),
{
    let t = applied(s, rw);
    let h = readdressed(s, rw);
    let n = ihl_of(s) as int;
    lemma_readdressed(s, rw);
    if rw == no_rewrite() {
        assert(h == s);
        assert(l4_rewritten(s, rw) == l4_of(s));
    } else {
        assert(forall|i: int| 0 <= i < n ==> #[trigger] t[i] == h[i]);
        assert(t[0] == h[0] && t[2] == h[2] && t[3] == h[3] && t[9] == h[9]);
        assert(be16(t, 2) == be16(h, 2));
        assert(t[12] == h[12] && t[13] == h[13] && t[14] == h[14] && t[15] == h[15]);
        assert(t[16] == h[16] && t[17] == h[17] && t[18] == h[18] && t[19] == h[19]);
        assert(t.subrange(0, n) =~= h.subrange(0, n));
        assert(l4_of(t) =~= l4_rewritten(s, rw));
    }
}

/// **A rewritten TCP packet is what was asked for, with sound checksums.** It parses,
/// has the 5-tuple asked for, its IPv4 header verifies as before, and the TCP checksum
/// of a segment of `n` bytes is bit for bit what a computation from scratch gives,
/// whatever follows the segment.
pub proof fn law_apply_tcp(s: Seq<u8>, rw: Rewrite, n: int)
    requires
        tuple_of(s) is Some,
        s[9] == proto::TCP,
        TCP_MIN_HDR_LEN <= n <= l4_of(s).len(),
    ensures
        ({
            let t = applied(s, rw);
            &&& apply_result(s, rw) is Ok
            &&& t.len() == s.len()
            &&& tuple_of(t) == Some(retargeted(tuple_of(s).unwrap(), rw))
            &&& header_valid(t) == header_valid(s)
            &&& header_sound(s) ==> header_sound(t)
            &&& n <= 0xffff && tcp_sound(addr_at(s, 12), addr_at(s, 16), l4_of(s).take(n))
                ==> tcp_sound(addr_at(t, 12), addr_at(t, 16), l4_of(t).take(n))
        }),
{
    lemma_tcp_rewritten(
        l4_of(s),
        addr_at(s, 12),
        new_src_of(s, rw),
        addr_at(s, 16),
        new_dst_of(s, rw),
        rw,
        n,
    );
    lemma_applied_parts(s, rw);
}

proof fn lemma_udp_patched_take(s: Seq<u8>, m: u16, m2: u16, n: int)
    requires
        UDP_HDR_LEN <= n <= s.len(),
    ensures
        udp_patched(s, m, m2).take(n) == udp_patched(s.take(n), m, m2),
        udp_patched(s, m, m2).len() == s.len(),
        forall|i: int| 0 <= i < s.len() && !(6 <= i < 8) ==> udp_patched(s, m, m2)[i] == s[i],
{
    assert(be16(s.take(n), 6) == be16(s, 6));
    assert(udp_patched(s, m, m2).take(n) =~= udp_patched(s.take(n), m, m2));
}

proof fn lemma_udp_patched_dword_take(s: Seq<u8>, m: u32, m2: u32, n: int)
    requires
        UDP_HDR_LEN <= n <= s.len(),
    ensures
        udp_patched_dword(s, m, m2).take(n) == udp_patched_dword(s.take(n), m, m2),
        udp_patched_dword(s, m, m2).len() == s.len(),
        forall|i: int|
            0 <= i < s.len() && !(6 <= i < 8) ==> udp_patched_dword(s, m, m2)[i] == s[i],
{
    let mid = udp_patched(s, (m / 0x1_0000) as u16, (m2 / 0x1_0000) as u16);
    lemma_udp_patched_take(s, (m / 0x1_0000) as u16, (m2 / 0x1_0000) as u16, n);
    lemma_udp_patched_take(mid, (m % 0x1_0000) as u16, (m2 % 0x1_0000) as u16, n);
}

proof fn lemma_udp_src_set_take(s: Seq<u8>, port: u16, n: int)
    requires
        UDP_HDR_LEN <= n <= s.len(),
    ensures
        udp_src_set(s, port).take(n) == udp_src_set(s.take(n), port),
        udp_src_set(s, port).len() == s.len(),
        forall|i: int| 2 <= i < s.len() && !(6 <= i < 8) ==> udp_src_set(s, port)[i] == s[i],
        be16(udp_src_set(s, port), 0) == port,
{
    let a = splice(s, 0, be16_bytes(port));
    lemma_udp_patched_take(a, be16(s, 0), port, n);
    assert(a.take(n) =~= splice(s.take(n), 0, be16_bytes(port)));
    assert(be16(s.take(n), 0) == be16(s, 0));
    lemma_be16_round_trip(s, 0, port);
}

proof fn lemma_udp_dst_set_take(s: Seq<u8>, port: u16, n: int)
    requires
        UDP_HDR_LEN <= n <= s.len(),
    ensures
        udp_dst_set(s, port).take(n) == udp_dst_set(s.take(n), port),
        udp_dst_set(s, port).len() == s.len(),
        forall|i: int|
            0 <= i < s.len() && !(2 <= i < 4) && !(6 <= i < 8) ==> udp_dst_set(s, port)[i] == s[i],
        be16(udp_dst_set(s, port), 2) == port,
{
    let a = splice(s, 2, be16_bytes(port));
    lemma_udp_patched_take(a, be16(s, 2), port, n);
    assert(a.take(n) =~= splice(s.take(n), 2, be16_bytes(port)));
    assert(be16(s.take(n), 2) == be16(s, 2));
    lemma_be16_round_trip(s, 2, port);
}

/// The same for a UDP datagram, whose checksum stays 0 where it was.
proof fn lemma_udp_rewritten(
    s: Seq<u8>,
    src: Ipv4Addr,
    src2: Ipv4Addr,
    dst: Ipv4Addr,
    dst2: Ipv4Addr,
    rw: Rewrite,
    n: int,
)
    requires
        UDP_HDR_LEN <= n <= s.len(),
    ensures
        ({
            let t = udp_rewritten(s, src, src2, dst, dst2, rw);
            &&& t.len() == s.len()
            &&& be16(t, 0) == match rw.new_src_port {
                Some(p) => p,
                None => be16(s, 0),
            }
            &&& be16(t, 2) == match rw.new_dst_port {
                Some(p) => p,
                None => be16(s, 2),
            }
            &&& n <= 0xffff && udp_sound(src, dst, s.take(n)) ==> udp_sound(src2, dst2, t.take(n))
                && (be16(t, 6) == 0 <==> be16(s, 6) == 0)
        }),
{
    let a = if src2 != src {
        udp_patched_dword(s, src.bits, src2.bits)
    } else {
        s
    };
    let b = if dst2 != dst {
        udp_patched_dword(a, dst.bits, dst2.bits)
    } else {
        a
    };
    let c = match rw.new_src_port {
        Some(p) => udp_src_set(b, p),
        None => b,
    };
    let t = udp_rewritten(s, src, src2, dst, dst2, rw);
    let sound = n <= 0xffff && udp_sound(src, dst, s.take(n));
    lemma_udp_patched_dword_take(s, src.bits, src2.bits, n);
    lemma_udp_patched_dword_take(a, dst.bits, dst2.bits, n);
    assert(a.len() == s.len() && b.len() == s.len());
    if sound && src2 != src {
        law_udp_src_addr_patch(src, dst, src2, s.take(n));
    }
    assert(sound ==> udp_sound(src2, dst, a.take(n)));
    if sound && dst2 != dst {
        law_udp_dst_addr_patch(src2, dst, dst2, a.take(n));
    }
    assert(sound ==> udp_sound(src2, dst2, b.take(n)));
    if let Some(p) = rw.new_src_port {
        lemma_udp_src_set_take(b, p, n);
        if sound {
            law_udp_src_port_set(src2, dst2, b.take(n), p);
        }
    }
    assert(sound ==> udp_sound(src2, dst2, c.take(n)));
    if let Some(p) = rw.new_dst_port {
        lemma_udp_dst_set_take(c, p, n);
        if sound {
            law_udp_dst_port_set(src2, dst2, c.take(n), p);
        }
    }
    assert(b[0] == s[0] && b[1] == s[1] && b[2] == s[2] && b[3] == s[3]);
    assert(c[2] == b[2] && c[3] == b[3]);
    assert(t[0] == c[0] && t[1] == c[1]);
    assert(be16(s.take(n), 6) == be16(s, 6));
    assert(be16(a.take(n), 6) == be16(a, 6));
    assert(be16(b.take(n), 6) == be16(b, 6));
    assert(be16(c.take(n), 6) == be16(c, 6));
    assert(be16(t.take(n), 6) == be16(t, 6));
}

/// **A rewritten UDP packet is what was asked for, with sound checksums**; a checksum
/// of 0, "not computed", stays 0, and no other becomes 0.
pub proof fn law_apply_udp(s: Seq<u8>, rw: Rewrite, n: int)
    requires
        tuple_of(s) is Some,
        s[9] == proto::UDP,
        UDP_HDR_LEN <= n <= l4_of(s).len(),
    ensures
        ({
            let t = applied(s, rw);
            &&& apply_result(s, rw) is Ok
            &&& t.len() == s.len()
            &&& tuple_of(t) == Some(retargeted(tuple_of(s).unwrap(), rw))
            &&& header_valid(t) == header_valid(s)
            &&& header_sound(s) ==> header_sound(t)
            &&& n <= 0xffff && udp_sound(addr_at(s, 12), addr_at(s, 16), l4_of(s).take(n))
                ==> udp_sound(addr_at(t, 12), addr_at(t, 16), l4_of(t).take(n)) && (be16(
                l4_of(t),
                6,
            ) == 0 <==> be16(l4_of(s), 6) == 0)
        }),
{
    lemma_udp_rewritten(
        l4_of(s),
        addr_at(s, 12),
        new_src_of(s, rw),
        addr_at(s, 16),
        new_dst_of(s, rw),
        rw,
        n,
    );
    lemma_applied_parts(s, rw);
}

/// **Rewriting keeps the length of a packet**, whatever bytes it holds.
pub proof fn law_apply_keeps_length(s: Seq<u8>, rw: Rewrite)
    ensures
        applied(s, rw).len() == s.len(),
{
    if rw != no_rewrite() && ipv4_error(s) is None {
        lemma_readdressed(s, rw);
        if l4_error(s) is None && s[9] == proto::TCP {
            law_apply_tcp(s, rw, TCP_MIN_HDR_LEN as int);
        } else if l4_error(s) is None && s[9] == proto::UDP {
            law_apply_udp(s, rw, UDP_HDR_LEN as int);
        }
    }
}

/// **Rewriting carries the 5-tuple over**: a packet with ports has, afterwards, the
/// tuple asked for.
pub proof fn law_apply_keeps_tuple(s: Seq<u8>, rw: Rewrite)
    requires
        tuple_of(s) is Some,
    ensures
        tuple_of(applied(s, rw)) == Some(retargeted(tuple_of(s).unwrap(), rw)),
        header_valid(applied(s, rw)) == header_valid(s),
        header_sound(s) ==> header_sound(applied(s, rw)),
{
    if s[9] == proto::TCP {
        law_apply_tcp(s, rw, TCP_MIN_HDR_LEN as int);
    } else {
        law_apply_udp(s, rw, UDP_HDR_LEN as int);
    }
}

} // verus!
