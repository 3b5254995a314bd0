//! What translation decides, what it remembers, and what it does to a packet.

use vstd::prelude::*;
use crate::addr::Ipv4Addr;
use crate::checksum::{updated_dword, updated_word};
use crate::ipv4::{ipv4_error, src_rewritten};
use crate::laws::packets::{
    has_tcp_at, is_ipv4, l4_start, law_address_is_replaced, law_ipv4_parses, law_port_is_set,
    law_tcp_is_patched, law_tcp_parses, law_tuple, law_udp_is_patched, same_but,
};
use crate::tcp::{tcp_error, tcp_patched, tcp_patched_dword, tcp_src_set};
use crate::translate::{Direction, DnatRule, NatStats};
use crate::translate::flow_table::Binding;
use crate::translate::rewrite::{
    applied, apply_result, dest_to, l4_rewritten, no_rewrite, readdressed, retargeted, source_to,
    tcp_rewritten, udp_rewritten, Rewrite,
};
use crate::translate::state::{
    cutoff_at, fresh_engine, law_allocation, lemma_search, matching_rule, NatState,
};
use crate::udp::{udp_patched, udp_patched_dword, udp_src_set};
use crate::wire::{be16, be32};
use crate::{l4_of, FiveTuple, ParseError};

verus! {

broadcast use crate::wire::group_field_lengths;

/// The two words of a 32-bit field, added.
pub open spec fn halves(v: u32) -> int {
    v / 0x1_0000 + v % 0x1_0000
}

/// Whether the packet `s` carries a whole TCP header.
pub open spec fn is_tcp(s: Seq<u8>) -> bool {
    is_ipv4(s) && s[9] == 6 && has_tcp_at(s, l4_start(s))
}

/// Whether the packet `s` carries a whole UDP header.
pub open spec fn is_udp(s: Seq<u8>) -> bool {
    is_ipv4(s) && s[9] == 17 && l4_start(s) + 8 <= s.len()
}

/// Whether rewriting may change the byte at `i`: those of the addresses and ports that
/// are asked for, and of the checksums that cover them.
pub open spec fn may_change(s: Seq<u8>, rw: Rewrite, i: int) -> bool {
    let o = l4_start(s);
    ||| 12 <= i < 16 && rw.new_src_ip is Some
    ||| 16 <= i < 20 && rw.new_dst_ip is Some
    ||| 10 <= i < 12 && (rw.new_src_ip is Some || rw.new_dst_ip is Some)
    ||| o <= i < o + 2 && rw.new_src_port is Some && (is_tcp(s) || is_udp(s))
    ||| o + 2 <= i < o + 4 && rw.new_dst_port is Some && (is_tcp(s) || is_udp(s))
    ||| o + 16 <= i < o + 18 && is_tcp(s)
    ||| o + 6 <= i < o + 8 && is_udp(s) && be16(s, o + 6) != 0
}

/// What is asked for, or what is there.
pub open spec fn asked<A>(new: Option<A>, was: A) -> A {
    match new {
        Some(a) => a,
        None => was,
    }
}

proof fn lemma_readdressed_bytes(s: Seq<u8>, rw: Rewrite)
    requires
        s.len() >= 20,
    ensures
        ({
            let t = readdressed(s, rw);
            &&& t.len() == s.len()
            &&& forall|i: int|
                0 <= i < s.len() && !(12 <= i < 16 && rw.new_src_ip is Some) && !(16 <= i < 20
                    && rw.new_dst_ip is Some) && !(10 <= i < 12 && (rw.new_src_ip is Some
                    || rw.new_dst_ip is Some)) ==> #[trigger] t[i] == s[i]
            &&& be32(t, 12) == asked(rw.new_src_ip, Ipv4Addr { bits: be32(s, 12) }).bits
            &&& be32(t, 16) == asked(rw.new_dst_ip, Ipv4Addr { bits: be32(s, 16) }).bits
            &&& be16(t, 10) == moved32(
                moved32(be16(s, 10), rw.new_src_ip, be32(s, 12)),
                rw.new_dst_ip,
                be32(s, 16),
            )
        }),
{
    let a = match rw.new_src_ip {
        Some(ip) => src_rewritten(s, ip.bits),
        None => s,
    };
    let t = readdressed(s, rw);
    if let Some(ip) = rw.new_src_ip {
        law_address_is_replaced(s, 12, ip.bits);
    }
    assert(a[16] == s[16] && a[17] == s[17] && a[18] == s[18] && a[19] == s[19]);
    if let Some(ip) = rw.new_dst_ip {
        law_address_is_replaced(a, 16, ip.bits);
    }
    assert(t[12] == a[12] && t[13] == a[13] && t[14] == a[14] && t[15] == a[15]);
}

/// Whether two sums are the same in one's complement.
#[verifier::opaque]
pub open spec fn balanced(a: int, b: int) -> bool {
    (b - a) % 0xffff == 0
}

/// **Sums are the same in one's complement** if they differ by a multiple of `0xffff`.
pub proof fn law_balanced(a: int, b: int)
    ensures
        balanced(a, b) <==> a % 0xffff == b % 0xffff,
{
    reveal(balanced);
}

proof fn lemma_balance_two(c0: int, c1: int, c2: int, h: int, h2: int, l: int, l2: int)
    requires
        balanced(c0 + h, c1 + h2),
        balanced(c1 + l, c2 + l2),
    ensures
        balanced(c0 + h + l, c2 + h2 + l2),
{
    reveal(balanced);
}

/// Whether `t` is `s` but for the ports that are asked for and the checksum at `c`.
spec fn l4_same(s: Seq<u8>, t: Seq<u8>, rw: Rewrite, c: int) -> bool {
    &&& t.len() == s.len()
    &&& forall|i: int|
        0 <= i < s.len() && !(0 <= i < 2 && rw.new_src_port is Some) && !(2 <= i < 4
            && rw.new_dst_port is Some) && !(c <= i < c + 2) ==> #[trigger] t[i] == s[i]
    &&& be16(t, 0) == asked(rw.new_src_port, be16(s, 0))
    &&& be16(t, 2) == asked(rw.new_dst_port, be16(s, 2))
}

proof fn lemma_tcp_dword(s: Seq<u8>, m: u32, m2: u32)
    requires
        s.len() >= 20,
    ensures
        same_but(s, tcp_patched_dword(s, m, m2), 0, 0, 16),
        be16(tcp_patched_dword(s, m, m2), 16) == updated_dword(be16(s, 16), m, m2),
        balanced(be16(s, 16) + halves(m), be16(tcp_patched_dword(s, m, m2), 16) + halves(m2)),
{
    let mid = tcp_patched(s, (m / 0x1_0000) as u16, (m2 / 0x1_0000) as u16);
    law_tcp_is_patched(s, (m / 0x1_0000) as u16, (m2 / 0x1_0000) as u16);
    law_tcp_is_patched(mid, (m % 0x1_0000) as u16, (m2 % 0x1_0000) as u16);
    let t = tcp_patched_dword(s, m, m2);
    let (h, h2) = (m as int / 0x1_0000, m2 as int / 0x1_0000);
    let (l, l2) = (m as int % 0x1_0000, m2 as int % 0x1_0000);
    law_balanced(be16(s, 16) + h, be16(mid, 16) + h2);
    law_balanced(be16(mid, 16) + l, be16(t, 16) + l2);
    lemma_balance_two(be16(s, 16) as int, be16(mid, 16) as int, be16(t, 16) as int, h, h2, l, l2);
}

proof fn lemma_udp_dword(s: Seq<u8>, m: u32, m2: u32)
    requires
        s.len() >= 8,
    ensures
        same_but(s, udp_patched_dword(s, m, m2), 0, 0, 6),
        be16(s, 6) != 0 ==> be16(udp_patched_dword(s, m, m2), 6) != 0,
        be16(s, 6) != 0 ==> balanced(
            be16(s, 6) + halves(m),
            be16(udp_patched_dword(s, m, m2), 6) + halves(m2),
        ),
        be16(s, 6) == 0 ==> udp_patched_dword(s, m, m2) == s,
{
    let mid = udp_patched(s, (m / 0x1_0000) as u16, (m2 / 0x1_0000) as u16);
    law_udp_is_patched(s, (m / 0x1_0000) as u16, (m2 / 0x1_0000) as u16);
    law_udp_is_patched(mid, (m % 0x1_0000) as u16, (m2 % 0x1_0000) as u16);
    let t = udp_patched_dword(s, m, m2);
    let (h, h2) = (m as int / 0x1_0000, m2 as int / 0x1_0000);
    let (l, l2) = (m as int % 0x1_0000, m2 as int % 0x1_0000);
    law_balanced(be16(s, 6) + h, be16(mid, 6) + h2);
    law_balanced(be16(mid, 6) + l, be16(t, 6) + l2);
    if be16(s, 6) != 0 {
        lemma_balance_two(
            be16(s, 6) as int,
            be16(mid, 6) as int,
            be16(t, 6) as int,
            h,
            h2,
            l,
            l2,
        );
    }
}

proof fn lemma_tcp_bytes(
    s: Seq<u8>,
    src: Ipv4Addr,
    src2: Ipv4Addr,
    dst: Ipv4Addr,
    dst2: Ipv4Addr,
    rw: Rewrite,
)
    requires
        s.len() >= 20,
    ensures
        l4_same(s, tcp_rewritten(s, src, src2, dst, dst2, rw), rw, 16),
{
    let a = if src2 != src {
        tcp_patched_dword(s, src.bits, src2.bits)
    } else {
        s
    };
    let b = if dst2 != dst {
        tcp_patched_dword(a, dst.bits, dst2.bits)
    } else {
        a
    };
    let c = match rw.new_src_port {
        Some(p) => tcp_src_set(b, p),
        None => b,
    };
    lemma_tcp_dword(s, src.bits, src2.bits);
    lemma_tcp_dword(a, dst.bits, dst2.bits);
    assert(same_but(s, b, 0, 0, 16));
    if let Some(p) = rw.new_src_port {
        law_port_is_set(b, p);
    }
    if let Some(p) = rw.new_dst_port {
        law_port_is_set(c, p);
    }
    let t = tcp_rewritten(s, src, src2, dst, dst2, rw);
    assert(b[0] == s[0] && b[1] == s[1] && b[2] == s[2] && b[3] == s[3]);
    assert(c[2] == b[2] && c[3] == b[3] && t[0] == c[0] && t[1] == c[1]);
}

proof fn lemma_udp_bytes(
    s: Seq<u8>,
    src: Ipv4Addr,
    src2: Ipv4Addr,
    dst: Ipv4Addr,
    dst2: Ipv4Addr,
    rw: Rewrite,
)
    requires
        s.len() >= 8,
    ensures
        l4_same(s, udp_rewritten(s, src, src2, dst, dst2, rw), rw, 6),
        be16(s, 6) == 0 ==> be16(udp_rewritten(s, src, src2, dst, dst2, rw), 6) == 0,
{
    let a = if src2 != src {
        udp_patched_dword(s, src.bits, src2.bits)
    } else {
        s
    };
    let b = if dst2 != dst {
        udp_patched_dword(a, dst.bits, dst2.bits)
    } else {
        a
    };
    let c = match rw.new_src_port {
        Some(p) => udp_src_set(b, p),
        None => b,
    };
    lemma_udp_dword(s, src.bits, src2.bits);
    lemma_udp_dword(a, dst.bits, dst2.bits);
    assert(same_but(s, b, 0, 0, 6));
    if let Some(p) = rw.new_src_port {
        law_port_is_set(b, p);
    }
    if let Some(p) = rw.new_dst_port {
        law_port_is_set(c, p);
    }
    let t = udp_rewritten(s, src, src2, dst, dst2, rw);
    assert(b[0] == s[0] && b[1] == s[1] && b[2] == s[2] && b[3] == s[3]);
    assert(c[2] == b[2] && c[3] == b[3] && t[0] == c[0] && t[1] == c[1]);
}

/// Checksums that each follow one change follow all of them.
proof fn lemma_balance_chain(
    c: (int, int, int, int, int),
    a: (int, int),
    b: (int, int),
    p: (int, int),
    q: (int, int),
)
    requires
        balanced(c.0 + a.0, c.1 + a.1),
        balanced(c.1 + b.0, c.2 + b.1),
        balanced(c.2 + p.0, c.3 + p.1),
        balanced(c.3 + q.0, c.4 + q.1),
    ensures
        balanced(c.0 + a.0 + b.0 + p.0 + q.0, c.4 + a.1 + b.1 + p.1 + q.1),
{
    lemma_balance_two(c.0, c.1, c.2, a.0, a.1, b.0, b.1);
    lemma_balance_two(c.0, c.2, c.3, a.0 + b.0, a.1 + b.1, p.0, p.1);
    lemma_balance_two(c.0, c.3, c.4, a.0 + b.0 + p.0, a.1 + b.1 + p.1, q.0, q.1);
}

proof fn lemma_tcp_balance(
    s: Seq<u8>,
    src: Ipv4Addr,
    src2: Ipv4Addr,
    dst: Ipv4Addr,
    dst2: Ipv4Addr,
    rw: Rewrite,
)
    requires
        s.len() >= 20,
    ensures
        ({
            let t = tcp_rewritten(s, src, src2, dst, dst2, rw);
            balanced(
                be16(s, 16) + halves(src.bits) + halves(dst.bits) + be16(s, 0) + be16(s, 2),
                be16(t, 16) + halves(src2.bits) + halves(dst2.bits) + be16(t, 0) + be16(t, 2),
            )
        }),
{
    let a = if src2 != src {
        tcp_patched_dword(s, src.bits, src2.bits)
    } else {
        s
    };
    let b = if dst2 != dst {
        tcp_patched_dword(a, dst.bits, dst2.bits)
    } else {
        a
    };
    let c = match rw.new_src_port {
        Some(p) => tcp_src_set(b, p),
        None => b,
    };
    let t = tcp_rewritten(s, src, src2, dst, dst2, rw);
    lemma_tcp_dword(s, src.bits, src2.bits);
    lemma_tcp_dword(a, dst.bits, dst2.bits);
    assert(b[0] == s[0] && b[1] == s[1] && b[2] == s[2] && b[3] == s[3]);
    assert(be16(b, 0) == be16(s, 0) && be16(b, 2) == be16(s, 2));
    if let Some(p) = rw.new_src_port {
        law_port_is_set(b, p);
    }
    assert(c[2] == b[2] && c[3] == b[3]);
    assert(be16(c, 2) == be16(b, 2));
    if let Some(p) = rw.new_dst_port {
        law_port_is_set(c, p);
    }
    assert(t[0] == c[0] && t[1] == c[1]);
    assert(be16(t, 0) == be16(c, 0));
    law_balanced(be16(s, 16) + halves(src.bits), be16(a, 16) + halves(src2.bits));
    law_balanced(be16(a, 16) + halves(dst.bits), be16(b, 16) + halves(dst2.bits));
    law_balanced(be16(b, 16) + be16(b, 0), be16(c, 16) + be16(c, 0));
    law_balanced(be16(c, 16) + be16(c, 2), be16(t, 16) + be16(t, 2));
    lemma_balance_chain(
        (be16(s, 16) as int, be16(a, 16) as int, be16(b, 16) as int, be16(c, 16) as int, be16(
            t,
            16,
        ) as int),
        (halves(src.bits), halves(src2.bits)),
        (halves(dst.bits), halves(dst2.bits)),
        (be16(s, 0) as int, be16(t, 0) as int),
        (be16(s, 2) as int, be16(t, 2) as int),
    );
}

proof fn lemma_udp_balance(
    s: Seq<u8>,
    src: Ipv4Addr,
    src2: Ipv4Addr,
    dst: Ipv4Addr,
    dst2: Ipv4Addr,
    rw: Rewrite,
)
    requires
        s.len() >= 8,
        be16(s, 6) != 0,
    ensures
        ({
            let t = udp_rewritten(s, src, src2, dst, dst2, rw);
            balanced(
                be16(s, 6) + halves(src.bits) + halves(dst.bits) + be16(s, 0) + be16(s, 2),
                be16(t, 6) + halves(src2.bits) + halves(dst2.bits) + be16(t, 0) + be16(t, 2),
            ) && be16(t, 6) != 0
        }),
{
    let a = if src2 != src {
        udp_patched_dword(s, src.bits, src2.bits)
    } else {
        s
    };
    let b = if dst2 != dst {
        udp_patched_dword(a, dst.bits, dst2.bits)
    } else {
        a
    };
    let c = match rw.new_src_port {
        Some(p) => udp_src_set(b, p),
        None => b,
    };
    let t = udp_rewritten(s, src, src2, dst, dst2, rw);
    lemma_udp_dword(s, src.bits, src2.bits);
    lemma_udp_dword(a, dst.bits, dst2.bits);
    assert(b[0] == s[0] && b[1] == s[1] && b[2] == s[2] && b[3] == s[3]);
    assert(be16(b, 0) == be16(s, 0) && be16(b, 2) == be16(s, 2));
    if let Some(p) = rw.new_src_port {
        law_port_is_set(b, p);
    }
    assert(c[2] == b[2] && c[3] == b[3]);
    assert(be16(c, 2) == be16(b, 2));
    if let Some(p) = rw.new_dst_port {
        law_port_is_set(c, p);
    }
    assert(t[0] == c[0] && t[1] == c[1]);
    assert(be16(t, 0) == be16(c, 0));
    law_balanced(be16(s, 6) + halves(src.bits), be16(a, 6) + halves(src2.bits));
    law_balanced(be16(a, 6) + halves(dst.bits), be16(b, 6) + halves(dst2.bits));
    law_balanced(be16(b, 6) + be16(b, 0), be16(c, 6) + be16(c, 0));
    law_balanced(be16(c, 6) + be16(c, 2), be16(t, 6) + be16(t, 2));
    lemma_balance_chain(
        (be16(s, 6) as int, be16(a, 6) as int, be16(b, 6) as int, be16(c, 6) as int, be16(
            t,
            6,
        ) as int),
        (halves(src.bits), halves(src2.bits)),
        (halves(dst.bits), halves(dst2.bits)),
        (be16(s, 0) as int, be16(t, 0) as int),
        (be16(s, 2) as int, be16(t, 2) as int),
    );
}

/// **Rewriting changes nothing but what it is asked to change**: addresses, ports, and the
/// checksums that cover them. Sequence numbers, flags, lengths and payload stay, as does
/// every byte of a packet that cannot be rewritten.
pub proof fn law_rewriting_spares_the_rest(s: Seq<u8>, rw: Rewrite)
    requires
        s.len() <= usize::MAX,
    ensures
        applied(s, rw).len() == s.len(),
        forall|i: int|
            0 <= i < s.len() && !(is_ipv4(s) && may_change(s, rw, i)) ==> #[trigger] applied(
                s,
                rw,
            )[i] == s[i],
        rw == (Rewrite { new_src_ip: None, new_dst_ip: None, new_src_port: None, new_dst_port: None })
            ==> applied(s, rw) == s,
{
    lemma_rewriting(s, rw);
}

/// **Rewriting writes what it is asked to write.** The addresses of an IPv4 packet and the
/// ports of a TCP or UDP packet are the ones asked for, or the ones that were there.
pub proof fn law_rewriting_writes_what_is_asked(s: Seq<u8>, rw: Rewrite)
    requires
        s.len() <= usize::MAX,
        is_ipv4(s),
    ensures
        ({
            let t = applied(s, rw);
            let o = l4_start(s);
            &&& be32(t, 12) == asked(rw.new_src_ip, Ipv4Addr { bits: be32(s, 12) }).bits
            &&& be32(t, 16) == asked(rw.new_dst_ip, Ipv4Addr { bits: be32(s, 16) }).bits
            &&& is_tcp(s) || is_udp(s) ==> be16(t, o) == asked(rw.new_src_port, be16(s, o))
            &&& is_tcp(s) || is_udp(s) ==> be16(t, o + 2) == asked(
                rw.new_dst_port,
                be16(s, o + 2),
            )
        }),
{
    lemma_rewriting(s, rw);
}

proof fn lemma_rewriting(s: Seq<u8>, rw: Rewrite)
    requires
        s.len() <= usize::MAX,
    ensures
        ({
            let t = applied(s, rw);
            let o = l4_start(s);
            &&& t.len() == s.len()
            &&& forall|i: int|
                0 <= i < s.len() && !(is_ipv4(s) && may_change(s, rw, i)) ==> #[trigger] t[i] == s[i]
            &&& is_ipv4(s) ==> {
                &&& be32(t, 12) == asked(rw.new_src_ip, Ipv4Addr { bits: be32(s, 12) }).bits
                &&& be32(t, 16) == asked(rw.new_dst_ip, Ipv4Addr { bits: be32(s, 16) }).bits
                &&& is_tcp(s) || is_udp(s) ==> be16(t, o) == asked(rw.new_src_port, be16(s, o))
                &&& is_tcp(s) || is_udp(s) ==> be16(t, o + 2) == asked(
                    rw.new_dst_port,
                    be16(s, o + 2),
                )
            }
        }),
{
    law_ipv4_parses(s);
    if rw != no_rewrite() && is_ipv4(s) {
        let t = applied(s, rw);
        let o = l4_start(s);
        let l4 = l4_of(s);
        let h = readdressed(s, rw);
        lemma_readdressed_bytes(s, rw);
        law_tuple(s);
        law_tcp_parses(l4);
        assert(forall|i: int| 0 <= i < l4.len() ==> #[trigger] l4[i] == s[o + i]);
        if crate::translate::rewrite::l4_error(s) is None {
            let (src, dst) = (crate::ipv4::addr_at(s, 12), crate::ipv4::addr_at(s, 16));
            let src2 = crate::translate::rewrite::new_src_of(s, rw);
            let dst2 = crate::translate::rewrite::new_dst_of(s, rw);
            let d = l4_rewritten(s, rw);
            if s[9] == 6 {
                lemma_tcp_bytes(l4, src, src2, dst, dst2, rw);
            } else if s[9] == 17 {
                lemma_udp_bytes(l4, src, src2, dst, dst2, rw);
                assert(be16(l4, 6) == be16(s, o + 6));
            }
            assert(d.len() == l4.len());
            assert(t =~= h.subrange(0, o) + d);
            assert(forall|i: int| 0 <= i < o ==> #[trigger] t[i] == h[i]);
            assert(t[12] == h[12] && t[13] == h[13] && t[14] == h[14] && t[15] == h[15]);
            assert(t[16] == h[16] && t[17] == h[17] && t[18] == h[18] && t[19] == h[19]);
            assert(be32(t, 12) == be32(h, 12) && be32(t, 16) == be32(h, 16));
            assert forall|i: int| 0 <= i < s.len() && !may_change(s, rw, i) implies #[trigger] t[i]
                == s[i] by {
                if i >= o {
                    assert(t[i] == d[i - o] && s[i] == l4[i - o]);
                    if s[9] == 17 && 6 <= i - o < 8 {
                        assert(be16(d, 6) == 0 && be16(l4, 6) == 0);
                        assert(d[6] == 0 && d[7] == 0 && l4[6] == 0 && l4[7] == 0);
                    }
                } else {
                    assert(t[i] == h[i]);
                }
            }
            if is_tcp(s) || is_udp(s) {
                assert(t[o] == d[0] && t[o + 1] == d[1] && t[o + 2] == d[2] && t[o + 3] == d[3]);
                assert(be16(t, o) == be16(d, 0) && be16(t, o + 2) == be16(d, 2));
                assert(be16(l4, 0) == be16(s, o) && be16(l4, 2) == be16(s, o + 2));
            }
        }
    }
}

/// **Rewriting keeps the balance of the L4 checksum**: what the addresses and ports gain,
/// the checksum loses. A UDP checksum of 0 stays, and no other becomes 0.
pub proof fn law_rewriting_keeps_the_balance(s: Seq<u8>, rw: Rewrite)
    requires
        s.len() <= usize::MAX,
    ensures
        ({
            let t = applied(s, rw);
            let o = l4_start(s);
            let sum = |x: Seq<u8>, c: int|
                be16(x, c) + halves(be32(x, 12)) + halves(be32(x, 16)) + be16(x, o) + be16(x, o + 2);
            &&& is_tcp(s) ==> balanced(sum(s, o + 16), sum(t, o + 16))
            &&& is_udp(s) && be16(s, o + 6) != 0 ==> balanced(sum(s, o + 6), sum(t, o + 6)) && be16(
                t,
                o + 6,
            ) != 0
            &&& is_udp(s) && be16(s, o + 6) == 0 ==> be16(t, o + 6) == 0
        }),
{
    law_ipv4_parses(s);
    if rw != no_rewrite() && (is_tcp(s) || is_udp(s)) {
        let t = applied(s, rw);
        let o = l4_start(s);
        let l4 = l4_of(s);
        let d = l4_rewritten(s, rw);
        law_tuple(s);
        law_tcp_parses(l4);
        assert(forall|i: int| 0 <= i < l4.len() ==> #[trigger] l4[i] == s[o + i]);
        lemma_rewriting(s, rw);
        lemma_readdressed_bytes(s, rw);
        let (src, dst) = (crate::ipv4::addr_at(s, 12), crate::ipv4::addr_at(s, 16));
        let src2 = crate::translate::rewrite::new_src_of(s, rw);
        let dst2 = crate::translate::rewrite::new_dst_of(s, rw);
        let c: int = if s[9] == 6 {
            16
        } else {
            6
        };
        if s[9] == 6 {
            lemma_tcp_bytes(l4, src, src2, dst, dst2, rw);
            lemma_tcp_balance(l4, src, src2, dst, dst2, rw);
        } else {
            lemma_udp_bytes(l4, src, src2, dst, dst2, rw);
            if be16(l4, 6) != 0 {
                lemma_udp_balance(l4, src, src2, dst, dst2, rw);
            }
        }
        assert(t =~= readdressed(s, rw).subrange(0, o) + d);
        assert(t[o] == d[0] && t[o + 1] == d[1] && t[o + 2] == d[2] && t[o + 3] == d[3]);
        assert(t[o + c] == d[c] && t[o + c + 1] == d[c + 1]);
        assert(be16(t, o + c) == be16(d, c) && be16(s, o + c) == be16(l4, c));
        assert(be16(t, o) == be16(d, 0) && be16(t, o + 2) == be16(d, 2));
        assert(be16(s, o) == be16(l4, 0) && be16(s, o + 2) == be16(l4, 2));
        assert(be32(t, 12) == src2.bits && be32(t, 16) == dst2.bits);
    } else {
        let o = l4_start(s);
        let rest = halves(be32(s, 12)) + halves(be32(s, 16)) + be16(s, o) + be16(s, o + 2);
        law_balanced(be16(s, o + 16) + rest, be16(s, o + 16) + rest);
        law_balanced(be16(s, o + 6) + rest, be16(s, o + 6) + rest);
    }
}

/// A checksum that covers a 32-bit field, after `new` took the place of `was` in it.
pub open spec fn moved32(c: u16, new: Option<Ipv4Addr>, was: u32) -> u16 {
    match new {
        Some(ip) => updated_dword(c, was, ip.bits),
        None => c,
    }
}

/// The same for a 16-bit field.
pub open spec fn moved16(c: u16, new: Option<u16>, was: u16) -> u16 {
    match new {
        Some(p) => updated_word(c, was, p),
        None => c,
    }
}

/// Those of the addresses asked for that are not there already.
pub open spec fn fresh(new: Option<Ipv4Addr>, was: u32) -> Option<Ipv4Addr> {
    match new {
        Some(ip) if ip.bits != was => new,
        _ => None,
    }
}

/// **Checksums follow the changes one by one**: source before destination, addresses before
/// ports. An address that is there already leaves the TCP checksum as it is.
pub proof fn law_rewriting_updates_in_turn(s: Seq<u8>, rw: Rewrite)
    requires
        s.len() <= usize::MAX,
        is_ipv4(s),
    ensures
        ({
            let t = applied(s, rw);
            let o = l4_start(s);
            let (src, dst) = (be32(s, 12), be32(s, 16));
            let c = be16(s, o + 16);
            &&& be16(t, 10) == moved32(moved32(be16(s, 10), rw.new_src_ip, src), rw.new_dst_ip, dst)
            &&& is_tcp(s) ==> be16(t, o + 16) == moved16(
                moved16(
                    moved32(moved32(c, fresh(rw.new_src_ip, src), src), fresh(rw.new_dst_ip, dst), dst),
                    rw.new_src_port,
                    be16(s, o),
                ),
                rw.new_dst_port,
                be16(s, o + 2),
            )
        }),
{
    law_ipv4_parses(s);
    if rw != no_rewrite() {
        let t = applied(s, rw);
        let o = l4_start(s);
        let l4 = l4_of(s);
        let h = readdressed(s, rw);
        lemma_readdressed_bytes(s, rw);
        lemma_rewriting(s, rw);
        law_tuple(s);
        law_tcp_parses(l4);
        assert(forall|i: int| 0 <= i < l4.len() ==> #[trigger] l4[i] == s[o + i]);
        if crate::translate::rewrite::l4_error(s) is None {
            let d = l4_rewritten(s, rw);
            assert(t =~= h.subrange(0, o) + d);
            assert(t[10] == h[10] && t[11] == h[11]);
            if s[9] == 6 {
                let (src, dst) = (crate::ipv4::addr_at(s, 12), crate::ipv4::addr_at(s, 16));
                let src2 = crate::translate::rewrite::new_src_of(s, rw);
                let dst2 = crate::translate::rewrite::new_dst_of(s, rw);
                lemma_tcp_bytes(l4, src, src2, dst, dst2, rw);
                lemma_tcp_in_turn(l4, src, src2, dst, dst2, rw);
                assert(t[o + 16] == d[16] && t[o + 17] == d[17]);
                assert(be16(t, o + 16) == be16(d, 16));
                assert(be16(l4, 16) == be16(s, o + 16));
                assert(be16(l4, 0) == be16(s, o) && be16(l4, 2) == be16(s, o + 2));
            }
        }
    }
}

proof fn lemma_tcp_in_turn(
    s: Seq<u8>,
    src: Ipv4Addr,
    src2: Ipv4Addr,
    dst: Ipv4Addr,
    dst2: Ipv4Addr,
    rw: Rewrite,
)
    requires
        s.len() >= 20,
    ensures
        ({
            let c0 = be16(s, 16);
            let c1 = if src2 != src {
                updated_dword(c0, src.bits, src2.bits)
            } else {
                c0
            };
            let c2 = if dst2 != dst {
                updated_dword(c1, dst.bits, dst2.bits)
            } else {
                c1
            };
            be16(tcp_rewritten(s, src, src2, dst, dst2, rw), 16) == moved16(
                moved16(c2, rw.new_src_port, be16(s, 0)),
                rw.new_dst_port,
                be16(s, 2),
            )
        }),
{
    let a = if src2 != src {
        tcp_patched_dword(s, src.bits, src2.bits)
    } else {
        s
    };
    let b = if dst2 != dst {
        tcp_patched_dword(a, dst.bits, dst2.bits)
    } else {
        a
    };
    let c = match rw.new_src_port {
        Some(p) => tcp_src_set(b, p),
        None => b,
    };
    lemma_tcp_dword(s, src.bits, src2.bits);
    lemma_tcp_dword(a, dst.bits, dst2.bits);
    assert(b[0] == s[0] && b[1] == s[1] && b[2] == s[2] && b[3] == s[3]);
    if let Some(p) = rw.new_src_port {
        law_port_is_set(b, p);
    }
    assert(c[2] == b[2] && c[3] == b[3]);
    if let Some(p) = rw.new_dst_port {
        law_port_is_set(c, p);
    }
}

/// **When rewriting fails**: a packet that is not IPv4, or whose TCP or UDP header is not
/// whole, and only where something is to be rewritten.
pub proof fn law_rewriting_succeeds(s: Seq<u8>, rw: Rewrite)
    requires
        s.len() <= usize::MAX,
    ensures
        apply_result(s, rw) is Ok <==> rw == (Rewrite {
            new_src_ip: None,
            new_dst_ip: None,
            new_src_port: None,
            new_dst_port: None,
        }) || is_ipv4(s) && (s[9] == 6 ==> is_tcp(s)) && (s[9] == 17 ==> is_udp(s)),
        apply_result(s, rw) matches Err(e) ==> e == if is_ipv4(s) {
            if s[9] == 6 {
                tcp_error(s.skip(l4_start(s))).unwrap()
            } else {
                ParseError::TooShort {
                    what: "udp",
                    need: 8,
                    got: (s.len() - l4_start(s)) as usize,
                }
            }
        } else {
            ipv4_error(s).unwrap()
        },
{
    law_ipv4_parses(s);
    law_tuple(s);
    if is_ipv4(s) {
        law_tcp_parses(l4_of(s));
        let o = l4_start(s);
        assert(forall|i: int| 0 <= i < l4_of(s).len() ==> #[trigger] l4_of(s)[i] == s[o + i]);
    }
}

/// **The tuple asked for** has the ends asked for, and keeps the others.
pub proof fn law_retargeted(t: FiveTuple, rw: Rewrite, ip: Ipv4Addr, port: u16)
    ensures
        retargeted(t, rw).src_ip == asked(rw.new_src_ip, t.src_ip),
        retargeted(t, rw).dst_ip == asked(rw.new_dst_ip, t.dst_ip),
        retargeted(t, rw).src_port == asked(rw.new_src_port, t.src_port),
        retargeted(t, rw).dst_port == asked(rw.new_dst_port, t.dst_port),
        retargeted(t, rw).protocol == t.protocol,
        retargeted(t, source_to(ip, port)) == (FiveTuple { src_ip: ip, src_port: port, ..t }),
        retargeted(t, dest_to(ip, port)) == (FiveTuple { dst_ip: ip, dst_port: port, ..t }),
        retargeted(t, no_rewrite()) == t,
{
}

/// **The first rule that fits is the one.** If some rule has the protocol and the
/// destination port, the first such rule is found; if none has, none is.
pub proof fn law_first_rule_that_fits(rules: Seq<DnatRule>, t: FiveTuple, i: int)
    requires
        0 <= i < rules.len(),
        rules[i].protocol == t.protocol,
        rules[i].ext_port == t.dst_port,
        forall|j: int|
            0 <= j < i ==> (#[trigger] rules[j]).protocol != t.protocol || rules[j].ext_port
                != t.dst_port,
    ensures
        matching_rule(rules, t) == Some(rules[i]),
    decreases rules.len(),
{
    let before = rules.drop_last();
    if i < before.len() {
        assert(before[i] == rules[i]);
        assert forall|j: int| 0 <= j < i implies (#[trigger] before[j]).protocol != t.protocol
            || before[j].ext_port != t.dst_port by {
            assert(before[j] == rules[j]);
        }
        law_first_rule_that_fits(before, t, i);
    } else {
        assert forall|j: int| 0 <= j < before.len() implies (#[trigger] before[j]).protocol
            != t.protocol || before[j].ext_port != t.dst_port by {
            assert(before[j] == rules[j]);
        }
        law_no_rule_fits(before, t);
        assert(rules.last() == rules[i]);
    }
}

/// **Where no rule fits, none is found.**
pub proof fn law_no_rule_fits(rules: Seq<DnatRule>, t: FiveTuple)
    requires
        forall|j: int|
            0 <= j < rules.len() ==> (#[trigger] rules[j]).protocol != t.protocol
                || rules[j].ext_port != t.dst_port,
    ensures
        matching_rule(rules, t) is None,
    decreases rules.len(),
{
    if rules.len() > 0 {
        let before = rules.drop_last();
        assert forall|j: int| 0 <= j < before.len() implies (#[trigger] before[j]).protocol
            != t.protocol || before[j].ext_port != t.dst_port by {
            assert(before[j] == rules[j]);
        }
        law_no_rule_fits(before, t);
        assert(rules.last() == rules[rules.len() - 1]);
    }
}

/// How many steps it takes from `at` to `p` in the ring of ports from `lo` to `hi`.
pub open spec fn steps(lo: int, hi: int, at: int, p: int) -> int {
    if p >= at {
        p - at
    } else {
        p - at + (hi - lo + 1)
    }
}

/// **A flow keeps its own port where it can**; otherwise it gets the first unused port in
/// turn, and the turn goes on behind it. There is none exactly if all are in use.
pub proof fn law_port_choice(st: NatState, preferred: u16)
    requires
        st.wf(),
    ensures
        ({
            let (lo, hi, at) = (st.port_min, st.port_max, st.next_port);
            let next = st.next_after(preferred);
            if lo <= preferred <= hi && !st.used.contains(preferred) {
                st.allocated(preferred) == Some(preferred) && next == at
            } else {
                match st.allocated(preferred) {
                    Some(p) => {
                        &&& lo <= p <= hi
                        &&& !st.used.contains(p)
                        &&& forall|q: u16|
                            lo <= q <= hi && steps(lo as int, hi as int, at as int, q as int)
                                < steps(lo as int, hi as int, at as int, p as int)
                                ==> #[trigger] st.used.contains(q)
                        &&& next == if p == hi {
                            lo as int
                        } else {
                            p + 1
                        }
                    },
                    None => {
                        &&& forall|q: u16| lo <= q <= hi ==> #[trigger] st.used.contains(q)
                        &&& next == at
                    },
                }
            }
        }),
{
    law_allocation(st, preferred);
    lemma_search(st, st.next_port, st.span());
    if st.allocated(preferred) is None {
        assert forall|q: u16| st.port_min <= q <= st.port_max implies #[trigger] st.used.contains(
            q,
        ) by {
            assert(!st.is_free(q));
        }
    }
}

/// The reply to `t` that comes back to `nat_ip:port`.
pub open spec fn answer_to(t: FiveTuple, nat_ip: Ipv4Addr, port: u16) -> FiveTuple {
    FiveTuple {
        src_ip: t.dst_ip,
        src_port: t.dst_port,
        dst_ip: nat_ip,
        dst_port: port,
        protocol: t.protocol,
    }
}

/// Whether two tables are the same but for the key `k`.
pub open spec fn same_but_key(
    a: Map<FiveTuple, Binding>,
    b: Map<FiveTuple, Binding>,
    k: FiveTuple,
) -> bool {
    forall|u: FiveTuple|
        u != k ==> (#[trigger] a.contains_key(u) <==> b.contains_key(u)) && (a.contains_key(u)
            ==> a[u] == b[u])
}

/// Whether two engines differ in no setting.
pub open spec fn same_settings(a: NatState, b: NatState) -> bool {
    a.nat_ip == b.nat_ip && a.port_min == b.port_min && a.port_max == b.port_max && a.rules
        == b.rules
}

/// Whether `m` has an entry `ip:port` for `k` that was seen at `now`.
pub open spec fn holds(
    m: Map<FiveTuple, Binding>,
    k: FiveTuple,
    ip: Ipv4Addr,
    port: u16,
    now: u64,
) -> bool {
    m.contains_key(k) && m[k].ip == ip && m[k].port == port && m[k].last_seen == now
}

/// **An outbound packet of a known flow** is shown as the NAT address and the port that
/// the flow has. Flow and expected reply are seen; nothing else changes but a counter.
pub proof fn law_known_flow(st: NatState, t: FiveTuple, now: u64)
    requires
        !st.dnat.contains_key(t),
        st.fwd.contains_key(t),
    ensures
        ({
            let (s1, rw) = st.outbound(t, now);
            let port = st.fwd[t].port;
            let back = answer_to(t, st.nat_ip, port);
            &&& rw.new_src_ip == Some(st.nat_ip)
            &&& rw.new_src_port == Some(port)
            &&& rw.new_dst_ip is None
            &&& rw.new_dst_port is None
            &&& holds(s1.fwd, t, st.fwd[t].ip, port, now)
            &&& holds(s1.rev, back, t.src_ip, t.src_port, now)
            &&& same_but_key(s1.fwd, st.fwd, t)
            &&& same_but_key(s1.rev, st.rev, back)
            &&& s1.dnat == st.dnat
            &&& s1.used == st.used
            &&& s1.next_port == st.next_port
            &&& same_settings(s1, st)
            &&& s1.stats == (NatStats {
                snat_hits: s1.stats.snat_hits,
                ..st.stats
            })
            &&& s1.stats.snat_hits == (st.stats.snat_hits + 1) % 0x1_0000_0000_0000_0000
        }),
{
}

/// **An outbound packet of a new flow** gets a port, while there is one; flow and expected
/// reply are tracked. Where there is none it is left alone, and counted.
pub proof fn law_new_flow(st: NatState, t: FiveTuple, now: u64)
    requires
        !st.dnat.contains_key(t),
        !st.fwd.contains_key(t),
    ensures
        ({
            let (s1, rw) = st.outbound(t, now);
            &&& rw.new_dst_ip is None
            &&& rw.new_dst_port is None
            &&& s1.dnat == st.dnat
            &&& same_settings(s1, st)
            &&& match st.allocated(t.src_port) {
                Some(port) => {
                    let back = answer_to(t, st.nat_ip, port);
                    &&& rw.new_src_ip == Some(st.nat_ip)
                    &&& rw.new_src_port == Some(port)
                    &&& holds(s1.fwd, t, st.nat_ip, port, now)
                    &&& holds(s1.rev, back, t.src_ip, t.src_port, now)
                    &&& same_but_key(s1.fwd, st.fwd, t)
                    &&& same_but_key(s1.rev, st.rev, back)
                    &&& forall|q: u16| #[trigger]
                        s1.used.contains(q) <==> st.used.contains(q) || q == port
                    &&& s1.next_port == st.next_after(t.src_port)
                    &&& s1.stats == (NatStats { snat_created: s1.stats.snat_created, ..st.stats })
                    &&& s1.stats.snat_created == (st.stats.snat_created + 1)
                        % 0x1_0000_0000_0000_0000
                },
                None => {
                    &&& rw.new_src_ip is None
                    &&& rw.new_src_port is None
                    &&& s1.fwd == st.fwd
                    &&& s1.rev == st.rev
                    &&& s1.used == st.used
                    &&& s1.next_port == st.next_port
                    &&& s1.stats == (NatStats {
                        port_exhausted: s1.stats.port_exhausted,
                        ..st.stats
                    })
                    &&& s1.stats.port_exhausted == (st.stats.port_exhausted + 1)
                        % 0x1_0000_0000_0000_0000
                },
            }
        }),
{
}

/// **A tracked packet is sent where its entry says**: a server's reply is shown as coming
/// from the forwarded port, a reply to a flow goes to the private endpoint. The entry is
/// seen, and nothing else changes but a counter.
pub proof fn law_tracked_packet(st: NatState, t: FiveTuple, now: u64)
    ensures
        st.dnat.contains_key(t) ==> {
            let (s1, rw) = st.outbound(t, now);
            &&& rw.new_src_ip == Some(st.dnat[t].ip)
            &&& rw.new_src_port == Some(st.dnat[t].port)
            &&& rw.new_dst_ip is None
            &&& rw.new_dst_port is None
            &&& holds(s1.dnat, t, st.dnat[t].ip, st.dnat[t].port, now)
            &&& same_but_key(s1.dnat, st.dnat, t)
            &&& s1 == (NatState { dnat: s1.dnat, stats: s1.stats, ..st })
            &&& s1.stats == (NatStats { reversed: s1.stats.reversed, ..st.stats })
            &&& s1.stats.reversed == (st.stats.reversed + 1) % 0x1_0000_0000_0000_0000
        },
        st.rev.contains_key(t) ==> {
            let (s1, rw) = st.inbound(t, now);
            &&& rw.new_dst_ip == Some(st.rev[t].ip)
            &&& rw.new_dst_port == Some(st.rev[t].port)
            &&& rw.new_src_ip is None
            &&& rw.new_src_port is None
            &&& holds(s1.rev, t, st.rev[t].ip, st.rev[t].port, now)
            &&& same_but_key(s1.rev, st.rev, t)
            &&& s1 == (NatState { rev: s1.rev, stats: s1.stats, ..st })
            &&& s1.stats == (NatStats { reversed: s1.stats.reversed, ..st.stats })
            &&& s1.stats.reversed == (st.stats.reversed + 1) % 0x1_0000_0000_0000_0000
        },
{
}

/// **A packet to a forwarded port goes to the server behind the first rule that fits**,
/// and the server's reply is tracked while there is room. Other packets from outside are
/// left alone.
pub proof fn law_forwarded_packet(st: NatState, t: FiveTuple, now: u64)
    requires
        !st.rev.contains_key(t),
    ensures
        t.dst_ip != st.nat_ip || matching_rule(st.rules, t) is None ==> {
            let (s1, rw) = st.inbound(t, now);
            &&& s1 == st
            &&& rw.new_src_ip is None && rw.new_dst_ip is None
            &&& rw.new_src_port is None && rw.new_dst_port is None
        },
        t.dst_ip == st.nat_ip ==> (matching_rule(st.rules, t) matches Some(rule) ==> {
            let (s1, rw) = st.inbound(t, now);
            let back = FiveTuple {
                src_ip: rule.to_ip,
                src_port: rule.to_port,
                dst_ip: t.src_ip,
                dst_port: t.src_port,
                protocol: t.protocol,
            };
            &&& rw.new_dst_ip == Some(rule.to_ip)
            &&& rw.new_dst_port == Some(rule.to_port)
            &&& rw.new_src_ip is None
            &&& rw.new_src_port is None
            &&& st.dnat.len() >= 65536 ==> s1 == st
            &&& st.dnat.len() < 65536 ==> {
                &&& holds(s1.dnat, back, st.nat_ip, rule.ext_port, now)
                &&& same_but_key(s1.dnat, st.dnat, back)
                &&& s1 == (NatState { dnat: s1.dnat, stats: s1.stats, ..st })
                &&& s1.stats == (NatStats { dnat_created: s1.stats.dnat_created, ..st.stats })
                &&& s1.stats.dnat_created == (st.stats.dnat_created + 1)
                    % 0x1_0000_0000_0000_0000
            }
        }),
{
}

/// **Packets cross in the direction they are said to.**
pub proof fn law_directions(st: NatState, t: FiveTuple, now: u64)
    ensures
        st.crossed(t, Direction::Outbound, now) == st.outbound(t, now),
        st.crossed(t, Direction::Inbound, now) == st.inbound(t, now),
{
}

/// Whether `a` holds the entries of `b` that are at most `timeout` old at `now`, as they
/// were, and no others.
pub open spec fn keeps_recent(
    a: Map<FiveTuple, Binding>,
    b: Map<FiveTuple, Binding>,
    now: u64,
    timeout: u64,
) -> bool {
    forall|u: FiveTuple|
        (#[trigger] a.contains_key(u) <==> b.contains_key(u) && now - b[u].last_seen <= timeout)
            && (a.contains_key(u) ==> a[u] == b[u])
}

/// **Collection at `now` with a timeout drops what is older than that**, in all tables,
/// and nothing else. The ports of the flows that go are free again and they are counted.
pub proof fn law_collection(st: NatState, now: u64, timeout: u64)
    requires
        st.wf(),
    ensures
        ({
            let s1 = st.collected(cutoff_at(now, timeout));
            &&& keeps_recent(s1.fwd, st.fwd, now, timeout)
            &&& keeps_recent(s1.rev, st.rev, now, timeout)
            &&& keeps_recent(s1.dnat, st.dnat, now, timeout)
            &&& forall|q: u16| #[trigger]
                s1.used.contains(q) <==> exists|u: FiveTuple| #[trigger]
                    s1.fwd.contains_key(u) && s1.fwd[u].port == q
            &&& s1.next_port == st.next_port
            &&& same_settings(s1, st)
            &&& st.idle_flows(cutoff_at(now, timeout)) == st.fwd.len() - s1.fwd.len()
            &&& s1.stats == (NatStats { expired: s1.stats.expired, ..st.stats })
            &&& s1.stats.expired == (st.stats.expired + st.fwd.len() - s1.fwd.len())
                % 0x1_0000_0000_0000_0000
        }),
{
    let s1 = st.collected(cutoff_at(now, timeout));
    crate::translate::state::law_collection_keeps_wf(st, cutoff_at(now, timeout));
    crate::translate::state::law_flows_fit_the_pool(st);
    vstd::set_lib::lemma_len_subset(s1.fwd.dom(), st.fwd.dom());
    assert forall|q: u16| #[trigger] s1.used.contains(q) <==> exists|u: FiveTuple| #[trigger]
        s1.fwd.contains_key(u) && s1.fwd[u].port == q by {
        if s1.used.contains(q) {
            assert(crate::translate::state::holds_port(s1.fwd, q));
        }
    }
}

/// **A fresh engine knows nothing**, and starts with its lowest port.
pub proof fn law_fresh_engine(nat_ip: Ipv4Addr, lo: u16, hi: u16, t: FiveTuple, q: u16)
    ensures
        ({
            let st = fresh_engine(nat_ip, lo, hi);
            &&& st.nat_ip == nat_ip
            &&& st.port_min == lo
            &&& st.port_max == hi
            &&& st.next_port == lo
            &&& !st.used.contains(q)
            &&& st.rules.len() == 0
            &&& !st.fwd.contains_key(t)
            &&& !st.rev.contains_key(t)
            &&& !st.dnat.contains_key(t)
            &&& st.stats == (NatStats {
                snat_created: 0,
                snat_hits: 0,
                dnat_created: 0,
                dnat_hits: 0,
                reversed: 0,
                port_exhausted: 0,
                expired: 0,
            })
        }),
{
}

} // verus!
