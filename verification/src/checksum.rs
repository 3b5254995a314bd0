//! Internet checksum (RFC 1071) and incremental checksum update (RFC 1624).
//!
//! A rewrite of an address or a port does not rescan the payload: the stored
//! checksum is adjusted by the difference of the 16-bit words that changed. The
//! laws at the end of this module say when that gives what a recomputation gives.

use vstd::prelude::*;
use crate::wire::{
    be16, be16_bytes, be32, be32_bytes, group_field_lengths, lemma_be16_round_trip,
    lemma_be32_halves, lemma_splice_be32, splice,
};

verus! {

broadcast use group_field_lengths;

/// The `k`-th 16-bit big-endian word of `s`. A trailing odd byte is the high byte
/// of a last word whose low byte is zero.
pub open spec fn word(s: Seq<u8>, k: int) -> nat {
    (s[2 * k] as nat * 256 + if 2 * k + 1 < s.len() {
        s[2 * k + 1] as nat
    } else {
        0
    }) as nat
}

/// The sum of the first `n` words of `s`.
pub open spec fn sum_upto(s: Seq<u8>, n: nat) -> nat
    decreases n,
{
    if n == 0 {
        0
    } else {
        sum_upto(s, (n - 1) as nat) + word(s, n - 1)
    }
}

/// The sum of all the 16-bit words of `s`.
pub open spec fn word_sum(s: Seq<u8>) -> nat {
    sum_upto(s, ((s.len() + 1) / 2) as nat)
}

/// The one's-complement sum that an accumulator stands for: its representative
/// modulo `0xffff`, where zero is kept for an accumulator of zero.
#[verifier::opaque]
pub open spec fn folded(sum: int) -> u16 {
    if sum <= 0 {
        0
    } else {
        ((sum - 1) % 0xffff + 1) as u16
    }
}

/// The checksum field value for an accumulated sum.
pub open spec fn complement_of(sum: int) -> u16 {
    (0xffff - folded(sum)) as u16
}

/// The checksum of `s`: words are summed in a 32-bit accumulator.
pub open spec fn checksum_of(s: Seq<u8>) -> u16 {
    complement_of((word_sum(s) % 0x1_0000_0000) as int)
}

/// The checksum `hc` after a covered word changed from `m` to `m2`.
pub open spec fn updated_word(hc: u16, m: u16, m2: u16) -> u16 {
    complement_of((0xffff - hc) + (0xffff - m) + m2)
}

/// The checksum `hc` after a covered 32-bit field changed from `m` to `m2`.
pub open spec fn updated_dword(hc: u16, m: u32, m2: u32) -> u16 {
    updated_word(
        updated_word(hc, (m / 0x1_0000) as u16, (m2 / 0x1_0000) as u16),
        (m % 0x1_0000) as u16,
        (m2 % 0x1_0000) as u16,
    )
}

pub proof fn lemma_folded(s: int)
    requires
        s > 0,
    ensures
        1 <= folded(s) <= 0xffff,
        (s - folded(s)) % 0xffff == 0,
{
    reveal(folded);
}

pub proof fn lemma_folded_small(s: int)
    requires
        0 <= s <= 0xffff,
    ensures
        folded(s) == s,
{
    reveal(folded);
}

pub proof fn lemma_folded_unique(s: int, t: int)
    requires
        s > 0,
        t > 0,
        (s - t) % 0xffff == 0,
    ensures
        folded(s) == folded(t),
{
    reveal(folded);
}

/// Compute the one's-complement 16-bit Internet checksum over `data`.
///
/// The value is in host byte order, ready to be written big-endian into a header
/// field.
#[must_use]
pub fn checksum(data: &[u8]) -> (r: u16)
    ensures
        r == checksum_of(data@),
{
    0xffff - fold(sum_be16(data))
}

/// Sum a byte slice as a sequence of big-endian 16-bit words into a 32-bit accumulator.
/// A trailing odd byte is treated as the high byte of a final word (low byte = 0).
#[must_use]
pub fn sum_be16(data: &[u8]) -> (r: u32)
    ensures
        r == word_sum(data@) % 0x1_0000_0000,
{
    let mut sum: u32 = 0;
    let n: usize = data.len();
    let half: usize = n / 2;
    let mut k: usize = 0;
    while k < half
        invariant
            n == data@.len(),
            half == n / 2,
            k <= half,
            sum == sum_upto(data@, k as nat) % 0x1_0000_0000,
        decreases half - k,
    {
        sum = sum.wrapping_add(data[2 * k] as u32 * 256 + data[2 * k + 1] as u32);
        k = k + 1;
    }
    if n % 2 == 1 {
        sum = sum.wrapping_add(data[n - 1] as u32 * 256);
    }
    sum
}

/// Fold a 32-bit accumulator down to 16 bits by adding the carries back in.
#[must_use]
pub fn fold(sum: u32) -> (r: u16)
    ensures
        r == folded(sum as int),
{
    let mut acc: u32 = sum;
    while acc / 0x1_0000 != 0
        invariant
            folded(acc as int) == folded(sum as int),
        decreases acc,
    {
        let hi: u32 = acc / 0x1_0000;
        let lo: u32 = acc % 0x1_0000;
        proof {
            assert(hi + lo == acc - 0xffff * hi);
            lemma_folded_unique(acc as int, hi + lo);
        }
        acc = lo + hi;
    }
    proof {
        lemma_folded_small(acc as int);
    }
    acc as u16
}

/// Continue an existing accumulator with more data. Useful to build a checksum
/// across several non-contiguous regions (e.g. a pseudo-header + payload) without
/// a scratch buffer.
#[must_use]
pub fn accumulate(acc: u32, data: &[u8]) -> (r: u32)
    ensures
        r == (acc + word_sum(data@)) % 0x1_0000_0000,
{
    acc.wrapping_add(sum_be16(data))
}

/// Finalize an accumulator produced by [`accumulate`] or [`sum_be16`] into a checksum
/// field value.
#[must_use]
pub fn finalize(acc: u32) -> (r: u16)
    ensures
        r == complement_of(acc as int),
{
    0xffff - fold(acc)
}

/// Incrementally update a 16-bit checksum after a field changed, per RFC 1624:
///
/// ```text
/// HC' = ~(~HC + ~m + m')
/// ```
///
/// where `HC` is the old checksum, `m` is the old 16-bit word, `m'` the new one.
/// Call once per changed 16-bit word.
#[must_use]
pub fn update_word(old_check: u16, was: u16, now: u16) -> (r: u16)
    ensures
        r == updated_word(old_check, was, now),
{
    let sum: u32 = (0xffff - old_check) as u32 + (0xffff - was) as u32 + now as u32;
    0xffff - fold(sum)
}

/// Incrementally update a checksum after a 32-bit field (e.g. an IPv4 address)
/// changed. Splits the change into its two 16-bit halves.
#[must_use]
pub fn update_dword(old_check: u16, was: u32, now: u32) -> (r: u16)
    ensures
        r == updated_dword(old_check, was, now),
{
    let c: u16 = update_word(old_check, (was / 0x1_0000) as u16, (now / 0x1_0000) as u16);
    update_word(c, (was % 0x1_0000) as u16, (now % 0x1_0000) as u16)
}

/// Every word is at most `0xffff`, so sums of up to `0x1_0001` words fit the
/// 32-bit accumulator.
pub proof fn lemma_word_sum_fits(s: Seq<u8>)
    ensures
        word_sum(s) <= 0xffff * ((s.len() + 1) / 2),
        s.len() <= 0x2_0002 ==> word_sum(s) <= u32::MAX,
{
    lemma_sum_upto_bound(s, ((s.len() + 1) / 2) as nat);
}

proof fn lemma_sum_upto_bound(s: Seq<u8>, n: nat)
    ensures
        sum_upto(s, n) <= 0xffff * n,
    decreases n,
{
    if n > 0 {
        lemma_sum_upto_bound(s, (n - 1) as nat);
    }
}

/// A sum of words is at least any one of them.
pub proof fn lemma_sum_upto_at_least(s: Seq<u8>, k: nat, n: nat)
    requires
        k < n,
    ensures
        sum_upto(s, n) >= word(s, k as int),
    decreases n,
{
    if k < n - 1 {
        lemma_sum_upto_at_least(s, k, (n - 1) as nat);
    }
}

/// Sequences that agree on their first `n` words have equal sums over them.
pub proof fn lemma_sum_upto_same(s: Seq<u8>, t: Seq<u8>, n: nat)
    requires
        forall|k: int| 0 <= k < n ==> word(s, k) == word(t, k),
    ensures
        sum_upto(s, n) == sum_upto(t, n),
    decreases n,
{
    if n > 0 {
        assert(word(s, n - 1) == word(t, n - 1));
        lemma_sum_upto_same(s, t, (n - 1) as nat);
    }
}

proof fn lemma_sum_upto_splice(s: Seq<u8>, k: nat, v: u16, n: nat)
    requires
        2 * k + 1 < s.len(),
        n <= (s.len() + 1) / 2,
    ensures
        sum_upto(splice(s, 2 * k as int, be16_bytes(v)), n) == sum_upto(s, n) + if k < n {
            v - be16(s, 2 * k as int)
        } else {
            0
        },
    decreases n,
{
    let t = splice(s, 2 * k as int, be16_bytes(v));
    if n > 0 {
        lemma_sum_upto_splice(s, k, v, (n - 1) as nat);
        if k == n - 1 {
            lemma_be16_round_trip(s, 2 * k as int, v);
            assert(word(t, n - 1) == v);
            assert(word(s, n - 1) == be16(s, 2 * k as int));
        } else {
            assert(word(t, n - 1) == word(s, n - 1));
        }
    }
}

/// Replacing the `k`-th word by `v` changes the sum by the difference of the two.
pub proof fn lemma_word_sum_splice(s: Seq<u8>, k: nat, v: u16)
    requires
        2 * k + 1 < s.len(),
    ensures
        word_sum(splice(s, 2 * k as int, be16_bytes(v))) == word_sum(s) + v - be16(
            s,
            2 * k as int,
        ),
        word_sum(s) >= be16(s, 2 * k as int),
{
    lemma_sum_upto_splice(s, k, v, ((s.len() + 1) / 2) as nat);
    lemma_sum_upto_at_least(s, k, ((s.len() + 1) / 2) as nat);
}

/// Replacing the `k`-th and the next word by the halves of `v` changes the sum by
/// the difference of the halves.
pub proof fn lemma_word_sum_splice_dword(s: Seq<u8>, k: nat, v: u32)
    requires
        2 * k + 3 < s.len(),
    ensures
        word_sum(splice(s, 2 * k as int, be32_bytes(v))) == word_sum(s) + v / 0x1_0000 + v % 0x1_0000
            - be32(s, 2 * k as int) / 0x1_0000 - be32(s, 2 * k as int) % 0x1_0000,
        word_sum(s) >= be32(s, 2 * k as int) / 0x1_0000 + be32(s, 2 * k as int) % 0x1_0000,
{
    let o = 2 * k as int;
    let hi = (v / 0x1_0000) as u16;
    let lo = (v % 0x1_0000) as u16;
    let s1 = splice(s, o, be16_bytes(hi));
    lemma_be32_halves(s, o);
    lemma_splice_be32(s, o, v);
    lemma_word_sum_splice(s, k, hi);
    assert(be16(s1, o + 2) == be16(s, o + 2)) by {
        assert(s1[o + 2] == s[o + 2] && s1[o + 3] == s[o + 3]);
    }
    lemma_word_sum_splice(s1, k + 1, lo);
    lemma_word_sum_splice(s, k, 0);
    let s0 = splice(s, o, be16_bytes(0));
    assert(be16(s0, o + 2) == be16(s, o + 2)) by {
        assert(s0[o + 2] == s[o + 2] && s0[o + 3] == s[o + 3]);
    }
    lemma_word_sum_splice(s0, k + 1, 0);
}

/// Incremental update is exact on the sums themselves: the checksum of `sum`,
/// updated for a covered word that changed from `m` to `m2`, is the checksum of
/// the changed sum, unless everything covered is now zero.
pub proof fn lemma_updated_word(sum: int, m: u16, m2: u16)
    requires
        sum >= m,
        sum - m + m2 > 0,
    ensures
        updated_word(complement_of(sum), m, m2) == complement_of(sum - m + m2),
{
    let inside = folded(sum) + (0xffff - m) + m2;
    lemma_folded_small(0);
    if sum > 0 {
        lemma_folded(sum);
    }
    assert(inside > 0);
    lemma_folded_unique(inside, sum - m + m2);
}

/// Where the sum fits the accumulator, the checksum is the complement of the sum.
pub proof fn lemma_checksum_of(s: Seq<u8>)
    requires
        word_sum(s) <= u32::MAX,
    ensures
        checksum_of(s) == complement_of(word_sum(s) as int),
{
}

/// **Incremental update equals recomputation** (RFC 1624). The checksum of `data`,
/// updated for its `k`-th word becoming `new`, is the checksum of the changed data.
///
/// Left out are data that become all zero: one's-complement zero has two forms,
/// and the recomputation alone gives the other one.
pub proof fn law_incremental_update_matches_recompute(data: Seq<u8>, k: nat, new: u16)
    requires
        2 * k + 1 < data.len(),
        word_sum(data) <= u32::MAX,
        word_sum(splice(data, 2 * k as int, be16_bytes(new))) <= u32::MAX,
        word_sum(splice(data, 2 * k as int, be16_bytes(new))) > 0,
    ensures
        updated_word(checksum_of(data), be16(data, 2 * k as int), new) == checksum_of(
            splice(data, 2 * k as int, be16_bytes(new)),
        ),
{
    let changed = splice(data, 2 * k as int, be16_bytes(new));
    lemma_word_sum_splice(data, k, new);
    lemma_checksum_of(data);
    lemma_checksum_of(changed);
    lemma_updated_word(word_sum(data) as int, be16(data, 2 * k as int), new);
}

/// **A stored checksum verifies to zero.** When the checksum of data whose `k`-th
/// word is zero is stored in that word, the checksum over the whole is zero.
pub proof fn law_stored_checksum_verifies(data: Seq<u8>, k: nat)
    requires
        2 * k + 1 < data.len(),
        be16(data, 2 * k as int) == 0,
        word_sum(data) + 0xffff <= u32::MAX,
    ensures
        checksum_of(splice(data, 2 * k as int, be16_bytes(checksum_of(data)))) == 0,
{
    let c = checksum_of(data);
    let s = word_sum(data) as int;
    lemma_word_sum_splice(data, k, c);
    lemma_folded_small(0);
    lemma_folded_small(0xffff);
    if s > 0 {
        lemma_folded(s);
    }
    lemma_folded_unique(s + c, 0xffff);
    lemma_checksum_of(data);
    lemma_checksum_of(splice(data, 2 * k as int, be16_bytes(c)));
}

/// Modulo `0xffff`, an update moves the checksum by the old word less the new one.
pub proof fn lemma_updated_word_residue(hc: u16, m: u16, m2: u16)
    ensures
        (updated_word(hc, m, m2) + m2 - hc - m) % 0xffff == 0,
{
    let inside = (0xffff - hc) + (0xffff - m) + m2;
    lemma_folded_small(0);
    if inside > 0 {
        lemma_folded(inside);
    }
}

/// The same for a 32-bit field, whose words are its halves.
pub proof fn lemma_updated_dword_residue(hc: u16, m: u32, m2: u32)
    ensures
        (updated_dword(hc, m, m2) + m2 / 0x1_0000 + m2 % 0x1_0000 - hc - m / 0x1_0000 - m % 0x1_0000)
            % 0xffff == 0,
{
    let mid = updated_word(hc, (m / 0x1_0000) as u16, (m2 / 0x1_0000) as u16);
    lemma_updated_word_residue(hc, (m / 0x1_0000) as u16, (m2 / 0x1_0000) as u16);
    lemma_updated_word_residue(mid, (m % 0x1_0000) as u16, (m2 % 0x1_0000) as u16);
}

/// A checksum over data that are not all zero is zero exactly when the sum of the
/// words is a multiple of `0xffff`.
pub proof fn lemma_verifies_iff_multiple(sum: int)
    ensures
        complement_of(sum) == 0 <==> sum > 0 && sum % 0xffff == 0,
{
    reveal(folded);
}

proof fn lemma_sum_upto_concat(a: Seq<u8>, b: Seq<u8>, n: nat)
    requires
        a.len() % 2 == 0,
        n <= (b.len() + 1) / 2,
    ensures
        sum_upto(a + b, a.len() / 2 + n) == word_sum(a) + sum_upto(b, n),
    decreases n,
{
    let h = a.len() / 2;
    if n == 0 {
        assert forall|k: int| 0 <= k < h implies word(a + b, k) == word(a, k) by {
            assert((a + b)[2 * k] == a[2 * k] && (a + b)[2 * k + 1] == a[2 * k + 1]);
        }
        lemma_sum_upto_same(a + b, a, h);
    } else {
        lemma_sum_upto_concat(a, b, (n - 1) as nat);
        let k = n - 1;
        assert((a + b)[2 * (h + k)] == b[2 * k]);
        if 2 * k + 1 < b.len() {
            assert((a + b)[2 * (h + k) + 1] == b[2 * k + 1]);
        }
        assert(word(a + b, h + k) == word(b, k));
    }
}

/// **A checksum can be built across regions.** Accumulating `b` after `a` gives the sum of
/// the two put together, and finalizing their checksum, if `a` ends on a word boundary.
pub proof fn law_accumulate_spans_regions(a: Seq<u8>, b: Seq<u8>)
    requires
        a.len() % 2 == 0,
    ensures
        word_sum(a) + word_sum(b) == word_sum(a + b),
        (word_sum(a) % 0x1_0000_0000 + word_sum(b)) % 0x1_0000_0000 == word_sum(a + b)
            % 0x1_0000_0000,
        complement_of(
            ((word_sum(a) % 0x1_0000_0000 + word_sum(b)) % 0x1_0000_0000) as int,
        ) == checksum_of(a + b),
{
    lemma_sum_upto_concat(a, b, ((b.len() + 1) / 2) as nat);
    assert(a.len() / 2 + (b.len() + 1) / 2 == ((a + b).len() + 1) / 2);
}

} // verus!
