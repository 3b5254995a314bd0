//! What is a packet, what is in it, and what rewriting leaves of it.

use vstd::prelude::*;
use crate::addr::Ipv4Addr;
use crate::arp::{arp_error, oper, reply_frame};
use crate::checksum::{sum_upto, updated_dword, updated_word, word, word_sum};
use crate::ethernet::{eth_header, eth_too_short, ethertype};
use crate::ipv4::{
    addr_rewritten, full_header, header_valid, ihl_of, ipv4_error, proto, ttl_lowered,
};
use crate::laws::bytes::{law_checksum_balances, law_update_follows_the_data};
use crate::tcp::{
    data_offset_of, flag, tcp_dst_set, tcp_error, tcp_patched, tcp_patched_dword, tcp_src_set,
};
use crate::udp::{
    udp_dst_set, udp_header, udp_patched, udp_patched_dword, udp_src_set, udp_too_short,
};
use crate::wire::{
    be16, be16_bytes, be32, lemma_be16_bytes_of, lemma_be16_read, lemma_be16_round_trip,
    lemma_be32_bytes_of, lemma_be32_read, splice,
};
use crate::{l4_of, tuple_of, FiveTuple, ParseError};

verus! {

broadcast use crate::wire::group_field_lengths;

/// Where the L4 part of an IPv4 packet starts: the header counts in units of four bytes.
pub open spec fn l4_start(s: Seq<u8>) -> int {
    4 * (s[0] % 16)
}

/// Whether `s` starts with a whole IPv4 header of version 4, whose total length covers it.
pub open spec fn is_ipv4(s: Seq<u8>) -> bool {
    &&& s.len() >= 20
    &&& 64 <= s[0] < 80
    &&& 20 <= l4_start(s) <= s.len()
    &&& l4_start(s) <= 256 * s[2] + s[3]
}

/// Whether a whole TCP header, options included, starts at `o` in `s`.
pub open spec fn has_tcp_at(s: Seq<u8>, o: int) -> bool {
    &&& o + 20 <= s.len()
    &&& 20 <= 4 * (s[o + 12] / 16)
    &&& o + 4 * (s[o + 12] / 16) <= s.len()
}

/// **A packet parses exactly if its header is whole.** What is refused, and why.
pub proof fn law_ipv4_parses(s: Seq<u8>)
    requires
        s.len() <= usize::MAX,
    ensures
        ipv4_error(s) is None <==> is_ipv4(s),
        s.len() < 20 ==> ipv4_error(s) == Some(
            ParseError::TooShort { what: "ipv4", need: 20, got: s.len() as usize },
        ),
        s.len() >= 20 && s[0] / 16 != 4 ==> ipv4_error(s) == Some(
            ParseError::BadVersion { what: "ipv4", version: s[0] / 16 },
        ),
        s.len() >= 20 && s[0] / 16 == 4 && !(20 <= l4_start(s) <= s.len()) ==> ipv4_error(s)
            == Some(ParseError::BadHeaderLen { what: "ipv4", len: l4_start(s) as usize }),
        s.len() >= 20 && s[0] / 16 == 4 && 20 <= l4_start(s) <= s.len() && 256 * s[2] + s[3]
            < l4_start(s) ==> ipv4_error(s) == Some(
            ParseError::BadHeaderLen { what: "ipv4-total", len: (256 * s[2] + s[3]) as usize },
        ),
        ihl_of(s) == l4_start(s),
{
}

/// **A segment parses exactly if its header is whole**, options included.
pub proof fn law_tcp_parses(s: Seq<u8>)
    requires
        s.len() <= usize::MAX,
    ensures
        tcp_error(s) is None <==> has_tcp_at(s, 0),
        s.len() < 20 ==> tcp_error(s) == Some(
            ParseError::TooShort { what: "tcp", need: 20, got: s.len() as usize },
        ),
        s.len() >= 20 && !has_tcp_at(s, 0) ==> tcp_error(s) == Some(
            ParseError::BadHeaderLen { what: "tcp", len: (4 * (s[12] / 16)) as usize },
        ),
        data_offset_of(s) == 4 * (s[12] / 16),
{
}

/// **An ARP payload is one for Ethernet and IPv4**; nothing else is taken for one.
pub proof fn law_arp_parses(s: Seq<u8>)
    requires
        s.len() <= usize::MAX,
    ensures
        arp_error(s) is None <==> s.len() >= 28 && s.take(6) == seq![0u8, 1u8, 8u8, 0u8, 6u8, 4u8],
        s.len() < 28 ==> arp_error(s) == Some(
            ParseError::TooShort { what: "arp", need: 28, got: s.len() as usize },
        ),
        s.len() >= 28 && arp_error(s) is Some ==> arp_error(s) == Some(
            ParseError::BadHeaderLen { what: "arp", len: s.len() as usize },
        ),
        eth_too_short(s.len()) == (ParseError::TooShort {
            what: "ethernet",
            need: 14,
            got: s.len() as usize,
        }),
        udp_too_short(s.len()) == (ParseError::TooShort {
            what: "udp",
            need: 8,
            got: s.len() as usize,
        }),
{
    let want = seq![0u8, 1u8, 8u8, 0u8, 6u8, 4u8];
    if s.len() >= 28 {
        if arp_error(s) is None {
            assert(s.take(6) =~= want);
        }
        if s.take(6) == want {
            assert(s[0] == want[0] && s[1] == want[1] && s[2] == want[2] && s[3] == want[3]
                && s[4] == want[4] && s[5] == want[5]) by {
                assert(forall|i: int| 0 <= i < 6 ==> s.take(6)[i] == #[trigger] s[i]);
            }
        }
    }
}

/// **Every TCP and UDP packet has a 5-tuple**: its addresses, its protocol and the first
/// two words behind its header. No other packet has one.
pub proof fn law_tuple(s: Seq<u8>)
    requires
        s.len() <= usize::MAX,
    ensures
        tuple_of(s) is Some <==> is_ipv4(s) && (s[9] == 6 && has_tcp_at(s, l4_start(s)) || s[9] == 17
            && l4_start(s) + 8 <= s.len()),
        tuple_of(s) matches Some(t) ==> {
            let o = l4_start(s);
            &&& t.src_ip.bits == be32(s, 12)
            &&& t.dst_ip.bits == be32(s, 16)
            &&& t.protocol == s[9]
            &&& t.src_port == be16(s, o)
            &&& t.dst_port == be16(s, o + 2)
        },
        is_ipv4(s) ==> l4_of(s) == s.skip(l4_start(s)),
{
    if is_ipv4(s) {
        let o = l4_start(s);
        assert(l4_of(s) =~= s.skip(o));
        assert(forall|i: int| 0 <= i < l4_of(s).len() ==> #[trigger] l4_of(s)[i] == s[o + i]);
    }
}

/// **Reversing swaps the two ends**, and nothing else.
pub proof fn law_reversed(t: FiveTuple)
    ensures
        t.swapped().src_ip == t.dst_ip,
        t.swapped().dst_ip == t.src_ip,
        t.swapped().src_port == t.dst_port,
        t.swapped().dst_port == t.src_port,
        t.swapped().protocol == t.protocol,
{
}

/// **A written Ethernet header** holds destination, source and type in this order.
pub proof fn law_ethernet_layout(dst: Seq<u8>, src: Seq<u8>, ty: u16)
    requires
        dst.len() == 6,
        src.len() == 6,
    ensures
        eth_header(dst, src, ty).len() == 14,
        eth_header(dst, src, ty).take(6) == dst,
        eth_header(dst, src, ty).subrange(6, 12) == src,
        256 * eth_header(dst, src, ty)[12] + eth_header(dst, src, ty)[13] == ty,
{
    let h = eth_header(dst, src, ty);
    reveal(be16_bytes);
    assert(h.take(6) =~= dst);
    assert(h.subrange(6, 12) =~= src);
}

/// **The numbers that the protocols agreed on.**
pub proof fn law_assigned_numbers()
    ensures
        ethertype::IPV4 == 0x0800,
        ethertype::ARP == 0x0806,
        ethertype::IPV6 == 0x86dd,
        proto::ICMP == 1,
        proto::TCP == 6,
        proto::UDP == 17,
        oper::REQUEST == 1,
        oper::REPLY == 2,
        flag::FIN == 1,
        flag::SYN == 2,
        flag::RST == 4,
        flag::PSH == 8,
        flag::ACK == 16,
        flag::URG == 32,
{
}

proof fn lemma_sum_counts_the_first(s: Seq<u8>, n: nat)
    requires
        n >= 1,
    ensures
        sum_upto(s, n) >= word(s, 0),
    decreases n,
{
    reveal_with_fuel(sum_upto, 2);
    if n > 1 {
        lemma_sum_counts_the_first(s, (n - 1) as nat);
    }
}

/// **A header is valid if its words balance**: they sum to a multiple of `0xffff`.
pub proof fn law_header_is_valid(s: Seq<u8>)
    requires
        is_ipv4(s),
        s.len() <= usize::MAX,
    ensures
        header_valid(s) <==> word_sum(s.take(l4_start(s))) % 0xffff == 0,
{
    let h = s.take(l4_start(s));
    law_ipv4_parses(s);
    crate::checksum::lemma_word_sum_fits(h);
    law_checksum_balances(h);
    lemma_sum_counts_the_first(h, ((h.len() + 1) / 2) as nat);
    assert(h[0] == s[0]);
    assert(word_sum(h) > 0);
    assert(s.subrange(0, ihl_of(s) as int) =~= h);
}

/// **A written IPv4 header** holds what was asked for in its fields, declares twenty bytes
/// and no options, and its ten words sum to a multiple of `0xffff`.
pub proof fn law_ipv4_layout(
    src: Ipv4Addr,
    dst: Ipv4Addr,
    protocol: u8,
    ttl: u8,
    id: u16,
    df: bool,
    n: u16,
)
    ensures
        ({
            let h = full_header(src, dst, protocol, ttl, id, df, n);
            &&& h.len() == 20
            &&& h[0] == 0x45
            &&& h[1] == 0
            &&& be16(h, 2) == (20 + n) % 0x1_0000
            &&& be16(h, 4) == id
            &&& be16(h, 6) == if df {
                0x4000int
            } else {
                0
            }
            &&& h[8] == ttl
            &&& h[9] == protocol
            &&& be32(h, 12) == src.bits
            &&& be32(h, 16) == dst.bits
            &&& word_sum(h) % 0xffff == 0
            &&& be16(h, 10) != 0xffff
        }),
{
    let h = full_header(src, dst, protocol, ttl, id, df, n);
    let bare = crate::ipv4::bare_header(src, dst, protocol, ttl, id, df, n);
    let total = ((20 + n) % 0x1_0000) as u16;
    let flags: u16 = if df {
        0x4000
    } else {
        0
    };
    assert(bare.len() == 20);
    lemma_be16_read(h, 2, total);
    lemma_be16_read(h, 4, id);
    lemma_be16_read(h, 6, flags);
    lemma_be32_read(h, 12, src.bits);
    lemma_be32_read(h, 16, dst.bits);
    assert(bare[10] == 0 && bare[11] == 0);
    assert(be16(bare, 10) == 0);
    let c = crate::checksum::checksum_of(bare);
    lemma_be16_round_trip(bare, 10, c);
    crate::checksum::lemma_word_sum_fits(bare);
    crate::checksum::lemma_word_sum_splice(bare, 5, c);
    law_checksum_balances(bare);
    crate::checksum::lemma_sum_upto_at_least(bare, 0, 10);
}

/// **A written UDP header** holds the ports, the length of header and payload, and a zero
/// checksum.
pub proof fn law_udp_layout(src_port: u16, dst_port: u16, n: u16)
    ensures
        ({
            let h = udp_header(src_port, dst_port, n);
            &&& h.len() == 8
            &&& be16(h, 0) == src_port
            &&& be16(h, 2) == dst_port
            &&& be16(h, 4) == (8 + n) % 0x1_0000
            &&& h[6] == 0
            &&& h[7] == 0
        }),
{
    let h = udp_header(src_port, dst_port, n);
    lemma_be16_read(h, 0, src_port);
    lemma_be16_read(h, 2, dst_port);
    lemma_be16_read(h, 4, ((8 + n) % 0x1_0000) as u16);
    reveal(be16_bytes);
}

/// **An ARP reply, byte by byte**: to the asker from the answering address, it says that
/// the address asked for is there, and repeats who asked.
pub proof fn law_arp_reply_layout(req: Seq<u8>, answer: Seq<u8>)
    requires
        req.len() >= 28,
        answer.len() == 6,
    ensures
        ({
            let f = reply_frame(req, answer);
            &&& f.len() == 42
            &&& f.take(6) == req.subrange(8, 14)
            &&& f.subrange(6, 12) == answer
            &&& f.subrange(12, 22) == seq![8u8, 6u8, 0u8, 1u8, 8u8, 0u8, 6u8, 4u8, 0u8, 2u8]
            &&& f.subrange(22, 28) == answer
            &&& f.subrange(28, 32) == req.subrange(24, 28)
            &&& f.subrange(32, 38) == req.subrange(8, 14)
            &&& f.subrange(38, 42) == req.subrange(14, 18)
        }),
{
    reveal(reply_frame);
    let f = reply_frame(req, answer);
    lemma_be32_bytes_of(req, 24);
    lemma_be32_bytes_of(req, 14);
    lemma_be16_bytes_of(seq![8u8, 6u8], 0);
    lemma_be16_bytes_of(seq![0u8, 1u8], 0);
    lemma_be16_bytes_of(seq![8u8, 0u8], 0);
    lemma_be16_bytes_of(seq![0u8, 2u8], 0);
    assert(f.take(6) =~= req.subrange(8, 14));
    assert(f.subrange(6, 12) =~= answer);
    assert(f.subrange(12, 22) =~= seq![8u8, 6u8, 0u8, 1u8, 8u8, 0u8, 6u8, 4u8, 0u8, 2u8]);
    assert(f.subrange(22, 28) =~= answer);
    assert(f.subrange(28, 32) =~= req.subrange(24, 28));
    assert(f.subrange(32, 38) =~= req.subrange(8, 14));
    assert(f.subrange(38, 42) =~= req.subrange(14, 18));
}

/// Whether `t` is `s` but for the bytes in `from..to` and the two bytes from `c` on.
pub open spec fn same_but(s: Seq<u8>, t: Seq<u8>, from: int, to: int, c: int) -> bool {
    &&& t.len() == s.len()
    &&& forall|i: int|
        0 <= i < s.len() && !(from <= i < to) && !(c <= i < c + 2) ==> #[trigger] t[i] == s[i]
}

/// **Lowering the time to live** takes one from it and touches nothing else but the header
/// checksum, which follows.
pub proof fn law_ttl_is_lowered(s: Seq<u8>)
    requires
        s.len() >= 20,
        s[8] > 0,
    ensures
        ttl_lowered(s)[8] == s[8] - 1,
        same_but(s, ttl_lowered(s), 8, 9, 10),
        (be16(ttl_lowered(s), 10) + be16(ttl_lowered(s), 8)) % 0xffff == (be16(s, 10) + be16(s, 8))
            % 0xffff,
{
    let word = (be16(s, 8) - 256) as u16;
    let t = ttl_lowered(s);
    let c = crate::checksum::updated_word(be16(s, 10), be16(s, 8), word);
    lemma_be16_read(t, 10, c);
    lemma_be16_bytes_of(seq![(s[8] - 1) as u8, s[9]], 0);
    assert(be16(seq![(s[8] - 1) as u8, s[9]], 0) == word);
    assert(t[8] == s[8] - 1 && t[9] == s[9]);
    law_update_follows_the_data(be16(s, 10), be16(s, 8), word);
}

/// **Replacing an address** touches nothing but the address and the header checksum, which
/// follows.
pub proof fn law_address_is_replaced(s: Seq<u8>, off: int, new: u32)
    requires
        s.len() >= 20,
        off == 12 || off == 16,
    ensures
        be32(addr_rewritten(s, off, new), off) == new,
        same_but(s, addr_rewritten(s, off, new), off, off + 4, 10),
        be16(addr_rewritten(s, off, new), 10) == updated_dword(be16(s, 10), be32(s, off), new),
        crate::ipv4::src_rewritten(s, new) == addr_rewritten(s, 12, new),
        crate::ipv4::dst_rewritten(s, new) == addr_rewritten(s, 16, new),
{
    let t = addr_rewritten(s, off, new);
    lemma_be32_read(t, off, new);
    lemma_be16_read(t, 10, updated_dword(be16(s, 10), be32(s, off), new));
}

/// **Patching a TCP checksum** touches nothing but the checksum, and follows the data.
pub proof fn law_tcp_is_patched(s: Seq<u8>, m: u16, m2: u16)
    requires
        s.len() >= 20,
    ensures
        same_but(s, tcp_patched(s, m, m2), 0, 0, 16),
        (be16(tcp_patched(s, m, m2), 16) + m2) % 0xffff == (be16(s, 16) + m) % 0xffff,
        be16(tcp_patched(s, m, m2), 16) == updated_word(be16(s, 16), m, m2),
{
    lemma_be16_round_trip(s, 16, updated_word(be16(s, 16), m, m2));
    law_update_follows_the_data(be16(s, 16), m, m2);
}

/// **Patching a UDP checksum** touches nothing but the checksum. One that was not
/// computed stays so; any other follows the data and never becomes 0.
pub proof fn law_udp_is_patched(s: Seq<u8>, m: u16, m2: u16)
    requires
        s.len() >= 8,
    ensures
        same_but(s, udp_patched(s, m, m2), 0, 0, 6),
        be16(s, 6) == 0 ==> udp_patched(s, m, m2) == s,
        be16(s, 6) != 0 ==> be16(udp_patched(s, m, m2), 6) != 0,
        be16(s, 6) != 0 ==> (be16(udp_patched(s, m, m2), 6) + m2) % 0xffff == (be16(s, 6) + m)
            % 0xffff,
{
    let c = crate::udp::nonzero(updated_word(be16(s, 6), m, m2));
    lemma_be16_round_trip(s, 6, c);
    law_update_follows_the_data(be16(s, 6), m, m2);
}

/// **A checksum is patched for an address as for its two halves**, the high one first.
pub proof fn law_patched_by_halves(s: Seq<u8>, hi: u16, lo: u16, hi2: u16, lo2: u16)
    ensures
        ({
            let (m, m2) = ((0x1_0000 * hi + lo) as u32, (0x1_0000 * hi2 + lo2) as u32);
            &&& tcp_patched_dword(s, m, m2) == tcp_patched(tcp_patched(s, hi, hi2), lo, lo2)
            &&& udp_patched_dword(s, m, m2) == udp_patched(udp_patched(s, hi, hi2), lo, lo2)
        }),
{
}

/// **Setting a port** puts it there and touches nothing else but the checksum, which
/// follows.
pub proof fn law_port_is_set(s: Seq<u8>, port: u16)
    requires
        s.len() >= 8,
    ensures
        be16(udp_src_set(s, port), 0) == port,
        same_but(s, udp_src_set(s, port), 0, 2, 6),
        be16(s, 6) == 0 <==> be16(udp_src_set(s, port), 6) == 0,
        be16(s, 6) != 0 ==> (be16(udp_src_set(s, port), 6) + port) % 0xffff == (be16(s, 6) + be16(
            s,
            0,
        )) % 0xffff,
        be16(udp_dst_set(s, port), 2) == port,
        same_but(s, udp_dst_set(s, port), 2, 4, 6),
        be16(s, 6) == 0 <==> be16(udp_dst_set(s, port), 6) == 0,
        be16(s, 6) != 0 ==> (be16(udp_dst_set(s, port), 6) + port) % 0xffff == (be16(s, 6) + be16(
            s,
            2,
        )) % 0xffff,
        s.len() >= 20 ==> be16(tcp_src_set(s, port), 0) == port,
        s.len() >= 20 ==> same_but(s, tcp_src_set(s, port), 0, 2, 16),
        s.len() >= 20 ==> (be16(tcp_src_set(s, port), 16) + port) % 0xffff == (be16(s, 16) + be16(
            s,
            0,
        )) % 0xffff,
        s.len() >= 20 ==> be16(tcp_src_set(s, port), 16) == updated_word(
            be16(s, 16),
            be16(s, 0),
            port,
        ),
        s.len() >= 20 ==> be16(tcp_dst_set(s, port), 2) == port,
        s.len() >= 20 ==> be16(tcp_dst_set(s, port), 16) == updated_word(
            be16(s, 16),
            be16(s, 2),
            port,
        ),
        s.len() >= 20 ==> same_but(s, tcp_dst_set(s, port), 2, 4, 16),
        s.len() >= 20 ==> (be16(tcp_dst_set(s, port), 16) + port) % 0xffff == (be16(s, 16) + be16(
            s,
            2,
        )) % 0xffff,
{
    let a = splice(s, 0, be16_bytes(port));
    let b = splice(s, 2, be16_bytes(port));
    assert(be16(a, 6) == be16(s, 6) && be16(b, 6) == be16(s, 6));
    law_udp_is_patched(a, be16(s, 0), port);
    law_udp_is_patched(b, be16(s, 2), port);
    lemma_be16_read(udp_src_set(s, port), 0, port);
    lemma_be16_read(udp_dst_set(s, port), 2, port);
    if s.len() >= 20 {
        assert(be16(a, 16) == be16(s, 16) && be16(b, 16) == be16(s, 16));
        law_tcp_is_patched(a, be16(s, 0), port);
        law_tcp_is_patched(b, be16(s, 2), port);
        lemma_be16_read(tcp_src_set(s, port), 0, port);
        lemma_be16_read(tcp_dst_set(s, port), 2, port);
    }
}

} // verus!
