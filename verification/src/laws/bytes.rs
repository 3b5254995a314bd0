//! Fields, ranges of bytes and the Internet checksum.

use vstd::prelude::*;
use crate::addr::Ipv4Addr;
use crate::checksum::{
    checksum_of, complement_of, folded, lemma_sum_upto_same, sum_upto, updated_dword, updated_word,
    word, word_sum,
};
use crate::ethernet::mac_at;
use crate::ipv4::{addr_at, pseudo_sum};
use crate::tcp::{tcp_blank, tcp_checksum};
use crate::udp::{udp_blank, udp_checksum};
use crate::wire::{be16, be16_bytes, be32, be32_bytes, splice, tail};

verus! {

/// The number that two bytes write, the first one counting 256 times.
pub open spec fn pair(hi: u8, lo: u8) -> int {
    256 * hi + lo
}

/// **Fields are big-endian**, where they are read.
pub proof fn law_fields_are_big_endian(s: Seq<u8>, i: int)
    ensures
        be16(s, i) == pair(s[i], s[i + 1]),
        be32(s, i) == 0x1_0000 * pair(s[i], s[i + 1]) + pair(s[i + 2], s[i + 3]),
        addr_at(s, i).bits == 0x1_0000 * pair(s[i], s[i + 1]) + pair(s[i + 2], s[i + 3]),
        mac_at(s, i).len() == 6 || !(0 <= i && i + 6 <= s.len()),
        forall|k: int| 0 <= i && 0 <= k < 6 && i + 6 <= s.len() ==> mac_at(s, i)[k] == s[i + k],
{
}

/// **Fields are big-endian**, where they are written.
pub proof fn law_written_fields_are_big_endian(v: u16, w: u32)
    ensures
        be16_bytes(v).len() == 2,
        pair(be16_bytes(v)[0], be16_bytes(v)[1]) == v,
        be32_bytes(w).len() == 4,
        0x1_0000 * pair(be32_bytes(w)[0], be32_bytes(w)[1]) + pair(
            be32_bytes(w)[2],
            be32_bytes(w)[3],
        ) == w,
{
    reveal(be16_bytes);
    reveal(be32_bytes);
}

/// **Writing bytes puts them there and nowhere else.** What stands at an offset is what
/// was written or what stood there.
pub proof fn law_splice(s: Seq<u8>, off: int, b: Seq<u8>)
    requires
        0 <= off,
        off + b.len() <= s.len(),
    ensures
        splice(s, off, b).len() == s.len(),
        splice(s, off, b).take(off) == s.take(off),
        splice(s, off, b).subrange(off, off + b.len()) == b,
        splice(s, off, b).skip(off + b.len()) == s.skip(off + b.len()),
        tail(s, off) == s.skip(off),
{
    let t = splice(s, off, b);
    assert(t.take(off) =~= s.take(off));
    assert(t.subrange(off, off + b.len()) =~= b);
    assert(t.skip(off + b.len()) =~= s.skip(off + b.len()));
    assert(tail(s, off) =~= s.skip(off));
}

/// **A sum is made byte by byte**: bytes at even positions count 256 times, and nothing
/// counts nothing.
pub proof fn law_sum_of_bytes(s: Seq<u8>, b: u8)
    ensures
        word_sum(Seq::empty()) == 0,
        word_sum(s.push(b)) == word_sum(s) + if s.len() % 2 == 0 {
            256 * b
        } else {
            b as int
        },
{
    let t = s.push(b);
    let h = (s.len() / 2) as nat;
    assert forall|k: int| 0 <= k < h implies word(t, k) == word(s, k) by {
        assert(t[2 * k] == s[2 * k] && t[2 * k + 1] == s[2 * k + 1]);
    }
    lemma_sum_upto_same(t, s, h);
    if s.len() % 2 == 0 {
        assert(word(t, h as int) == 256 * b) by {
            assert(t[2 * h as int] == b);
        }
        assert((t.len() + 1) / 2 == h + 1 && (s.len() + 1) / 2 == h);
        assert(sum_upto(t, h + 1) == sum_upto(t, h) + word(t, h as int));
    } else {
        assert(t[2 * h as int] == s[2 * h as int] && t[2 * h as int + 1] == b);
        assert(word(t, h as int) == word(s, h as int) + b);
        assert((t.len() + 1) / 2 == h + 1 && (s.len() + 1) / 2 == h + 1);
        assert(sum_upto(t, h + 1) == sum_upto(t, h) + word(t, h as int));
        assert(sum_upto(s, h + 1) == sum_upto(s, h) + word(s, h as int));
    }
}

/// **A checksum field balances the sum it is for**: together they are a multiple of
/// `0xffff`. Of the two forms of zero, all ones is for nothing but zero.
pub proof fn law_complement_balances(sum: int)
    requires
        0 <= sum,
    ensures
        (complement_of(sum) + sum) % 0xffff == 0,
        complement_of(sum) == 0xffff <==> sum == 0,
        folded(sum) + complement_of(sum) == 0xffff,
{
    reveal(folded);
}

/// **The checksum balances the data**, whose sum is kept in 32 bits.
pub proof fn law_checksum_balances(s: Seq<u8>)
    ensures
        (checksum_of(s) + word_sum(s) % 0x1_0000_0000) % 0xffff == 0,
        checksum_of(s) == 0xffff <==> word_sum(s) % 0x1_0000_0000 == 0,
{
    law_complement_balances((word_sum(s) % 0x1_0000_0000) as int);
}

/// **An incremental update moves the checksum by what the data moved**: the old word
/// leaves and the new one comes. All ones is for nothing but zero.
pub proof fn law_update_follows_the_data(hc: u16, m: u16, m2: u16)
    ensures
        (updated_word(hc, m, m2) + m2) % 0xffff == (hc + m) % 0xffff,
        updated_word(hc, m, m2) == 0xffff <==> hc == 0xffff && m == 0xffff && m2 == 0,
{
    law_complement_balances((0xffff - hc) + (0xffff - m) + m2);
}

/// **A 32-bit field is updated as its two halves**, the high one first.
pub proof fn law_update_by_halves(hc: u16, hi: u16, lo: u16, hi2: u16, lo2: u16)
    ensures
        updated_dword(
            hc,
            (0x1_0000 * hi + lo) as u32,
            (0x1_0000 * hi2 + lo2) as u32,
        ) == updated_word(updated_word(hc, hi, hi2), lo, lo2),
{
}

/// What the pseudo-header of an L4 checksum sums to.
pub open spec fn pseudo_words(src: u32, dst: u32, protocol: int, len: int) -> int {
    src / 0x1_0000 + src % 0x1_0000 + dst / 0x1_0000 + dst % 0x1_0000 + protocol + len % 0x1_0000
}

/// **The L4 checksums balance pseudo-header and segment**: addresses, protocol number,
/// length and every byte. A UDP checksum is never 0.
pub proof fn law_l4_checksums_balance(src: Ipv4Addr, dst: Ipv4Addr, s: Seq<u8>)
    ensures
        ({
            let sum = (pseudo_words(src.bits, dst.bits, 6, s.len() as int) + word_sum(s))
                % 0x1_0000_0000;
            &&& (tcp_checksum(src, dst, s) + sum) % 0xffff == 0
            &&& tcp_checksum(src, dst, s) == 0xffff <==> sum == 0
        }),
        ({
            let sum = (pseudo_words(src.bits, dst.bits, 17, s.len() as int) + word_sum(s))
                % 0x1_0000_0000;
            &&& (udp_checksum(src, dst, s) + sum) % 0xffff == 0
            &&& udp_checksum(src, dst, s) == 0xffff <==> sum % 0xffff == 0
            &&& udp_checksum(src, dst, s) != 0
        }),
        pseudo_sum(src, dst, 6, (s.len() % 0x1_0000) as u16) == pseudo_words(
            src.bits,
            dst.bits,
            6,
            s.len() as int,
        ),
{
    let t = (pseudo_words(src.bits, dst.bits, 6, s.len() as int) + word_sum(s)) % 0x1_0000_0000;
    let u = (pseudo_words(src.bits, dst.bits, 17, s.len() as int) + word_sum(s)) % 0x1_0000_0000;
    law_complement_balances(t);
    law_complement_balances(u);
}

/// **To blank a checksum is to zero its field**, and no more.
pub proof fn law_blank_zeroes_the_field(s: Seq<u8>)
    ensures
        s.len() >= 8 ==> udp_blank(s) == s.take(6).push(0).push(0) + s.skip(8),
        s.len() >= 18 ==> tcp_blank(s) == s.take(16).push(0).push(0) + s.skip(18),
{
    reveal(be16_bytes);
    if s.len() >= 8 {
        assert(udp_blank(s) =~= s.take(6).push(0).push(0) + s.skip(8));
    }
    if s.len() >= 18 {
        assert(tcp_blank(s) =~= s.take(16).push(0).push(0) + s.skip(18));
    }
}

} // verus!
