//! IPv4 parsing and in-place rewriting.
//!
//! The mutable view exposes `set_src`/`set_dst` that fix up the header checksum
//! incrementally (RFC 1624). The NAT layer sits on top and additionally fixes the
//! L4 checksum, because for TCP/UDP the addresses are covered by the pseudo-header.

use vstd::prelude::*;
use crate::addr::Ipv4Addr;
use crate::checksum;
use crate::checksum::{
    checksum_of, updated_dword, updated_word, word_sum, lemma_checksum_of,
    lemma_updated_dword_residue, lemma_updated_word_residue, lemma_verifies_iff_multiple,
    lemma_word_sum_fits, lemma_word_sum_splice, lemma_word_sum_splice_dword,
    law_incremental_update_matches_recompute, law_stored_checksum_verifies,
};
use crate::wire::{
    be16, be16_bytes, be32, be32_bytes, get_be16, get_be32, lemma_be16_bytes_of, lemma_be16_read,
    lemma_be32_halves, lemma_be32_read, lemma_splice_be32, put_be16, put_be32, skip, splice, tail,
};
use crate::ParseError;

pub mod proto;

verus! {

broadcast use crate::wire::group_field_lengths;

pub const IPV4_MIN_HDR_LEN: usize = 20;

/// The header length that a packet declares, in bytes.
pub open spec fn ihl_of(s: Seq<u8>) -> nat {
    (s[0] % 16) as nat * 4
}

/// Why `s` is not a parsable IPv4 packet; `None` if it is one. The total length may
/// be larger than the captured bytes, but it must at least cover the header.
pub open spec fn ipv4_error(s: Seq<u8>) -> Option<ParseError> {
    if s.len() < IPV4_MIN_HDR_LEN {
        Some(ParseError::TooShort { what: "ipv4", need: IPV4_MIN_HDR_LEN, got: s.len() as usize })
    } else if s[0] / 16 != 4 {
        Some(ParseError::BadVersion { what: "ipv4", version: (s[0] / 16) as u8 })
    } else if ihl_of(s) < IPV4_MIN_HDR_LEN || ihl_of(s) > s.len() {
        Some(ParseError::BadHeaderLen { what: "ipv4", len: ihl_of(s) as usize })
    } else if be16(s, 2) < ihl_of(s) {
        Some(ParseError::BadHeaderLen { what: "ipv4-total", len: be16(s, 2) as usize })
    } else {
        None
    }
}

/// Whether the header checksum of the packet `s` is correct: over the whole header,
/// the stored field included, the checksum is zero.
pub open spec fn header_valid(s: Seq<u8>) -> bool {
    checksum_of(s.subrange(0, ihl_of(s) as int)) == 0
}

/// The header of the packet `s` with a zero checksum field.
pub open spec fn blank_header(s: Seq<u8>) -> Seq<u8> {
    splice(s.subrange(0, ihl_of(s) as int), 10, be16_bytes(0))
}

/// Whether the stored header checksum of the packet `s` is, bit for bit, what a
/// computation from scratch gives.
pub open spec fn header_sound(s: Seq<u8>) -> bool {
    be16(s, 10) == checksum_of(blank_header(s))
}

/// The address at offset `i`.
pub open spec fn addr_at(s: Seq<u8>, i: int) -> Ipv4Addr {
    Ipv4Addr { bits: be32(s, i) }
}

/// `s` with the address at `off` replaced by `new` and the header checksum adjusted.
pub open spec fn addr_rewritten(s: Seq<u8>, off: int, new: u32) -> Seq<u8> {
    splice(
        splice(s, off, be32_bytes(new)),
        10,
        be16_bytes(updated_dword(be16(s, 10), be32(s, off), new)),
    )
}

/// `s` with its source address replaced.
pub open spec fn src_rewritten(s: Seq<u8>, new: u32) -> Seq<u8> {
    addr_rewritten(s, 12, new)
}

/// `s` with its destination address replaced.
pub open spec fn dst_rewritten(s: Seq<u8>, new: u32) -> Seq<u8> {
    addr_rewritten(s, 16, new)
}

/// `s` with its time to live lowered by one and the header checksum adjusted.
pub open spec fn ttl_lowered(s: Seq<u8>) -> Seq<u8> {
    let word = (be16(s, 8) - 256) as u16;
    splice(
        splice(s, 8, be16_bytes(word)),
        10,
        be16_bytes(updated_word(be16(s, 10), be16(s, 8), word)),
    )
}

/// Read-only IPv4 view.
#[derive(Clone, Copy)]
pub struct Ipv4View<'a> {
    buf: &'a [u8],
}

impl<'a> View for Ipv4View<'a> {
    type V = Seq<u8>;

    closed spec fn view(&self) -> Seq<u8> {
        self.buf@
    }
}

impl<'a> Ipv4View<'a> {
    #[verifier::type_invariant]
    spec fn parsed(self) -> bool {
        ipv4_error(self.buf@) is None
    }

    pub fn parse(buf: &'a [u8]) -> (r: Result<Self, ParseError>)
        ensures
            match ipv4_error(buf@) {
                None => r matches Ok(v) && v@ == buf@,
                Some(e) => r == Err::<Self, ParseError>(e),
            },
    {
        if buf.len() < IPV4_MIN_HDR_LEN {
            return Err(
                ParseError::TooShort { what: "ipv4", need: IPV4_MIN_HDR_LEN, got: buf.len() },
            );
        }
        let version: u8 = buf[0] / 16;
        if version != 4 {
            return Err(ParseError::BadVersion { what: "ipv4", version });
        }
        let ihl: usize = (buf[0] % 16) as usize * 4;
        if ihl < IPV4_MIN_HDR_LEN || ihl > buf.len() {
            return Err(ParseError::BadHeaderLen { what: "ipv4", len: ihl });
        }
        let total: usize = get_be16(buf, 2) as usize;
        if total < ihl {
            return Err(ParseError::BadHeaderLen { what: "ipv4-total", len: total });
        }
        Ok(Self { buf })
    }

    #[must_use]
    pub fn ihl_bytes(&self) -> (r: usize)
        ensures
            r == ihl_of(self@),
    {
        proof {
            use_type_invariant(self);
        }
        (self.buf[0] % 16) as usize * 4
    }

    #[must_use]
    pub fn dscp_ecn(&self) -> (r: u8)
        ensures
            r == self@[1],
    {
        proof {
            use_type_invariant(self);
        }
        self.buf[1]
    }

    #[must_use]
    pub fn total_length(&self) -> (r: u16)
        ensures
            r == be16(self@, 2),
    {
        proof {
            use_type_invariant(self);
        }
        get_be16(self.buf, 2)
    }

    #[must_use]
    pub fn identification(&self) -> (r: u16)
        ensures
            r == be16(self@, 4),
    {
        proof {
            use_type_invariant(self);
        }
        get_be16(self.buf, 4)
    }

    #[must_use]
    pub fn flags_frag(&self) -> (r: u16)
        ensures
            r == be16(self@, 6),
    {
        proof {
            use_type_invariant(self);
        }
        get_be16(self.buf, 6)
    }

    /// Bit 14 of the flags word.
    #[must_use]
    pub fn dont_fragment(&self) -> (r: bool)
        ensures
            r == ((be16(self@, 6) / 0x4000) % 2 == 1),
    {
        (self.flags_frag() / 0x4000) % 2 == 1
    }

    /// Bit 13 of the flags word.
    #[must_use]
    pub fn more_fragments(&self) -> (r: bool)
        ensures
            r == ((be16(self@, 6) / 0x2000) % 2 == 1),
    {
        (self.flags_frag() / 0x2000) % 2 == 1
    }

    /// The fragment offset in bytes: the low 13 bits count units of eight.
    #[must_use]
    pub fn fragment_offset(&self) -> (r: u16)
        ensures
            r == (be16(self@, 6) % 0x2000) * 8,
    {
        (self.flags_frag() % 0x2000) * 8
    }

    #[must_use]
    pub fn ttl(&self) -> (r: u8)
        ensures
            r == self@[8],
    {
        proof {
            use_type_invariant(self);
        }
        self.buf[8]
    }

    #[must_use]
    pub fn protocol(&self) -> (r: u8)
        ensures
            r == self@[9],
            ipv4_error(self@) is None,
    {
        proof {
            use_type_invariant(self);
        }
        self.buf[9]
    }

    #[must_use]
    pub fn header_checksum(&self) -> (r: u16)
        ensures
            r == be16(self@, 10),
    {
        proof {
            use_type_invariant(self);
        }
        get_be16(self.buf, 10)
    }

    #[must_use]
    pub fn src(&self) -> (r: Ipv4Addr)
        ensures
            r == addr_at(self@, 12),
    {
        proof {
            use_type_invariant(self);
        }
        Ipv4Addr { bits: get_be32(self.buf, 12) }
    }

    #[must_use]
    pub fn dst(&self) -> (r: Ipv4Addr)
        ensures
            r == addr_at(self@, 16),
    {
        proof {
            use_type_invariant(self);
        }
        Ipv4Addr { bits: get_be32(self.buf, 16) }
    }

    /// True if the stored header checksum is correct.
    #[must_use]
    pub fn checksum_valid(&self) -> (r: bool)
        ensures
            r == header_valid(self@),
    {
        proof {
            use_type_invariant(self);
        }
        let n: usize = self.ihl_bytes();
        checksum::checksum(&self.buf[0..n]) == 0
    }

    /// The L4 payload (after IHL bytes). Bounded by the captured buffer.
    #[must_use]
    pub fn payload(&self) -> (r: &'a [u8])
        ensures
            r@ == tail(self@, ihl_of(self@) as int),
    {
        proof {
            use_type_invariant(self);
        }
        skip(self.buf, self.ihl_bytes())
    }

    #[must_use]
    pub fn bytes(&self) -> (r: &'a [u8])
        ensures
            r@ == self@,
    {
        self.buf
    }
}

/// Mutable IPv4 view for in-place rewrites.
pub struct Ipv4ViewMut<'a> {
    pub buf: &'a mut [u8],
}

impl<'a> View for Ipv4ViewMut<'a> {
    type V = Seq<u8>;

    open spec fn view(&self) -> Seq<u8> {
        self.buf@
    }
}

impl<'a> Ipv4ViewMut<'a> {
    /// The view holds a packet that parses.
    pub open spec fn wf(&self) -> bool {
        ipv4_error(self@) is None
    }

    pub fn parse(buf: &'a mut [u8]) -> (r: Result<Self, ParseError>)
        ensures
            match ipv4_error(old(buf)@) {
                None => r matches Ok(v) && v.wf() && v@ == old(buf)@ && final(v.buf)@ == final(buf)@,
                Some(e) => r == Err::<Self, ParseError>(e) && final(buf)@ == old(buf)@,
            },
    {
        // Validate via the read-only path first.
        match Ipv4View::parse(buf) {
            Ok(_) => {},
            Err(e) => {
                return Err(e);
            },
        }
        Ok(Self { buf })
    }

    #[must_use]
    pub fn ihl_bytes(&self) -> (r: usize)
        requires
            self.wf(),
        ensures
            r == ihl_of(self@),
    {
        (self.buf[0] % 16) as usize * 4
    }

    #[must_use]
    pub fn protocol(&self) -> (r: u8)
        requires
            self.wf(),
        ensures
            r == self@[9],
    {
        self.buf[9]
    }

    #[must_use]
    pub fn src(&self) -> (r: Ipv4Addr)
        requires
            self.wf(),
        ensures
            r == addr_at(self@, 12),
    {
        Ipv4Addr { bits: get_be32(self.buf, 12) }
    }

    #[must_use]
    pub fn dst(&self) -> (r: Ipv4Addr)
        requires
            self.wf(),
        ensures
            r == addr_at(self@, 16),
    {
        Ipv4Addr { bits: get_be32(self.buf, 16) }
    }

    #[must_use]
    pub fn header_checksum(&self) -> (r: u16)
        requires
            self.wf(),
        ensures
            r == be16(self@, 10),
    {
        get_be16(self.buf, 10)
    }

    fn set_header_checksum(&mut self, c: u16)
        requires
            old(self).wf(),
        ensures
            final(self).wf(),
            final(self)@ == splice(old(self)@, 10, be16_bytes(c)),
            final(final(self).buf)@ == final(old(self).buf)@,
    {
        put_be16(self.buf, 10, c);
    }

    /// Rewrite the source address and fix the header checksum incrementally.
    /// Returns `(old, new)` as u32 so the caller can also patch the L4 checksum.
    pub fn set_src(&mut self, new: Ipv4Addr) -> (r: (u32, u32))
        requires
            old(self).wf(),
        ensures
            final(self).wf(),
            r == (be32(old(self)@, 12), new.bits),
            final(self)@ == src_rewritten(old(self)@, new.bits),
            final(final(self).buf)@ == final(old(self).buf)@,
    {
        let old_u: u32 = self.src().bits;
        let c: u16 = checksum::update_dword(self.header_checksum(), old_u, new.bits);
        put_be32(self.buf, 12, new.bits);
        self.set_header_checksum(c);
        (old_u, new.bits)
    }

    /// Rewrite the destination address and fix the header checksum incrementally.
    pub fn set_dst(&mut self, new: Ipv4Addr) -> (r: (u32, u32))
        requires
            old(self).wf(),
        ensures
            final(self).wf(),
            r == (be32(old(self)@, 16), new.bits),
            final(self)@ == dst_rewritten(old(self)@, new.bits),
            final(final(self).buf)@ == final(old(self).buf)@,
    {
        let old_u: u32 = self.dst().bits;
        let c: u16 = checksum::update_dword(self.header_checksum(), old_u, new.bits);
        put_be32(self.buf, 16, new.bits);
        self.set_header_checksum(c);
        (old_u, new.bits)
    }

    /// Decrement TTL by one, fixing the header checksum. Returns the new TTL.
    /// Returns `None` if TTL was already 0 (packet should be dropped/ICMP'd).
    pub fn decrement_ttl(&mut self) -> (r: Option<u8>)
        requires
            old(self).wf(),
        ensures
            final(self).wf(),
            old(self)@[8] == 0 ==> r is None && final(self)@ == old(self)@,
            old(self)@[8] > 0 ==> r == Some((old(self)@[8] - 1) as u8) && final(self)@
                == ttl_lowered(old(self)@),
            final(final(self).buf)@ == final(old(self).buf)@,
    {
        let ttl: u8 = self.buf[8];
        if ttl == 0 {
            return None;
        }
        // TTL and protocol share a 16-bit word (bytes 8,9). Update that word.
        let old_word: u16 = get_be16(self.buf, 8);
        let new_word: u16 = old_word - 256;
        let c: u16 = checksum::update_word(self.header_checksum(), old_word, new_word);
        self.buf[8] = ttl - 1;
        proof {
            lemma_be16_bytes_of(self.buf@, 8);
            assert(be16(self.buf@, 8) == new_word);
        }
        assert(self.buf@ =~= splice(old(self)@, 8, be16_bytes(new_word)));
        self.set_header_checksum(c);
        Some(ttl - 1)
    }

    /// The L4 payload, to be written through.
    #[must_use]
    pub fn payload_mut(&mut self) -> (r: &mut [u8])
        requires
            old(self).wf(),
        ensures
            r@ == tail(old(self)@, ihl_of(old(self)@) as int),
            final(r)@.len() == r@.len() ==> final(self).wf(),
            final(self)@ == old(self)@.subrange(0, ihl_of(old(self)@) as int) + final(r)@,
            final(final(self).buf)@ == final(old(self).buf)@,
    {
        let ihl: usize = self.ihl_bytes();
        let (_, rest) = self.buf.split_at_mut(ihl);
        rest
    }
}

/// The sum of the pseudo-header words: addresses, protocol, and L4 length.
pub open spec fn pseudo_sum(src: Ipv4Addr, dst: Ipv4Addr, protocol: u8, l4_len: u16) -> nat {
    (src.bits / 0x1_0000 + src.bits % 0x1_0000 + dst.bits / 0x1_0000 + dst.bits % 0x1_0000
        + protocol + l4_len) as nat
}

/// Compute the IPv4 pseudo-header partial sum used by TCP/UDP checksums.
/// Returns an unfolded 32-bit accumulator (feed more data, then finalize).
#[must_use]
pub fn pseudo_header_sum(src: Ipv4Addr, dst: Ipv4Addr, protocol: u8, l4_len: u16) -> (r: u32)
    ensures
        r == pseudo_sum(src, dst, protocol, l4_len),
{
    src.bits / 0x1_0000 + src.bits % 0x1_0000 + dst.bits / 0x1_0000 + dst.bits % 0x1_0000
        + protocol as u32 + l4_len as u32
}

/// A 20-byte header with a zero checksum field. The total length is taken modulo
/// 2^16, which is what its field holds.
pub open spec fn bare_header(
    src: Ipv4Addr,
    dst: Ipv4Addr,
    protocol: u8,
    ttl: u8,
    identification: u16,
    dont_fragment: bool,
    payload_len: u16,
) -> Seq<u8> {
    seq![0x45u8, 0u8] + be16_bytes(((20 + payload_len) % 0x1_0000) as u16) + be16_bytes(
        identification,
    ) + be16_bytes(
        if dont_fragment {
            0x4000u16
        } else {
            0u16
        },
    ) + seq![ttl, protocol, 0u8, 0u8] + be32_bytes(src.bits) + be32_bytes(dst.bits)
}

/// A 20-byte header with its checksum in place.
pub open spec fn full_header(
    src: Ipv4Addr,
    dst: Ipv4Addr,
    protocol: u8,
    ttl: u8,
    identification: u16,
    dont_fragment: bool,
    payload_len: u16,
) -> Seq<u8> {
    let bare = bare_header(src, dst, protocol, ttl, identification, dont_fragment, payload_len);
    splice(bare, 10, be16_bytes(checksum_of(bare)))
}

/// Build a minimal 20-byte IPv4 header into `buf` and set the checksum.
/// `payload_len` is the number of L4 bytes that will follow the header.
pub fn write_header(
    buf: &mut [u8],
    src: Ipv4Addr,
    dst: Ipv4Addr,
    protocol: u8,
    ttl: u8,
    identification: u16,
    dont_fragment: bool,
    payload_len: u16,
) -> (r: usize)
    requires
        old(buf)@.len() >= IPV4_MIN_HDR_LEN,
    ensures
        r == IPV4_MIN_HDR_LEN,
        final(buf)@ == splice(
            old(buf)@,
            0,
            full_header(src, dst, protocol, ttl, identification, dont_fragment, payload_len),
        ),
{
    let ghost bare = bare_header(
        src,
        dst,
        protocol,
        ttl,
        identification,
        dont_fragment,
        payload_len,
    );
    buf[0] = 0x45;  // version 4, IHL 5
    buf[1] = 0x00;  // DSCP/ECN
    let total: u16 = 20u16.wrapping_add(payload_len);
    put_be16(buf, 2, total);
    put_be16(buf, 4, identification);
    let flags: u16 = if dont_fragment {
        0x4000
    } else {
        0
    };
    put_be16(buf, 6, flags);
    buf[8] = ttl;
    buf[9] = protocol;
    buf[10] = 0;
    buf[11] = 0;
    put_be32(buf, 12, src.bits);
    put_be32(buf, 16, dst.bits);
    assert(buf@ =~= splice(old(buf)@, 0, bare));
    assert(buf@.subrange(0, 20) =~= bare);
    let c: u16 = checksum::checksum(&buf[0..IPV4_MIN_HDR_LEN]);
    put_be16(buf, 10, c);
    assert(buf@ =~= splice(old(buf)@, 0, splice(bare, 10, be16_bytes(c))));
    IPV4_MIN_HDR_LEN
}

/// The checksum over a header whose first byte is not zero is zero exactly when its
/// words sum to a multiple of `0xffff`.
proof fn lemma_header_sum(h: Seq<u8>)
    requires
        2 <= h.len() <= 60,
        h[0] > 0,
    ensures
        checksum_of(h) == 0 <==> word_sum(h) % 0xffff == 0,
{
    lemma_word_sum_fits(h);
    lemma_checksum_of(h);
    checksum::lemma_sum_upto_at_least(h, 0, ((h.len() + 1) / 2) as nat);
    lemma_verifies_iff_multiple(word_sum(h) as int);
}

/// Numbers that differ by a multiple of `0xffff` are multiples of it together.
proof fn lemma_same_residue(a: int, b: int, d: int)
    requires
        a == b + d,
        d % 0xffff == 0,
    ensures
        a % 0xffff == 0 <==> b % 0xffff == 0,
{
}

proof fn lemma_addr_rewrite_header(h: Seq<u8>, off: int, new: u32)
    requires
        20 <= h.len() <= 60,
        h[0] > 0,
        off == 12 || off == 16,
    ensures
        checksum_of(addr_rewritten(h, off, new)) == 0 <==> checksum_of(h) == 0,
{
    let c = updated_dword(be16(h, 10), be32(h, off), new);
    let h1 = splice(h, off, be32_bytes(new));
    let h2 = splice(h1, 10, be16_bytes(c));
    assert(h1[10] == h[10] && h1[11] == h[11]);
    assert(be16(h1, 10) == be16(h, 10));
    lemma_word_sum_splice_dword(h, (off / 2) as nat, new);
    lemma_word_sum_splice(h1, 5, c);
    lemma_updated_dword_residue(be16(h, 10), be32(h, off), new);
    lemma_same_residue(
        word_sum(h2) as int,
        word_sum(h) as int,
        c + new / 0x1_0000 + new % 0x1_0000 - be16(h, 10) - be32(h, off) / 0x1_0000 - be32(h, off)
            % 0x1_0000,
    );
    lemma_header_sum(h);
    lemma_header_sum(h2);
}

/// A header whose first byte is not zero, with its `k`-th word changed, has the checksum
/// that an incremental update gives.
proof fn lemma_header_word(h: Seq<u8>, k: nat, new: u16)
    requires
        2 <= h.len() <= 60,
        h[0] > 0,
        1 <= k,
        2 * k + 1 < h.len(),
    ensures
        updated_word(checksum_of(h), be16(h, 2 * k as int), new) == checksum_of(
            splice(h, 2 * k as int, be16_bytes(new)),
        ),
{
    let h1 = splice(h, 2 * k as int, be16_bytes(new));
    lemma_word_sum_fits(h);
    lemma_word_sum_fits(h1);
    checksum::lemma_sum_upto_at_least(h1, 0, ((h1.len() + 1) / 2) as nat);
    law_incremental_update_matches_recompute(h, k, new);
}

/// The same for an address.
proof fn lemma_header_addr(h: Seq<u8>, off: int, new: u32)
    requires
        20 <= h.len() <= 60,
        h[0] > 0,
        off == 12 || off == 16,
    ensures
        updated_dword(checksum_of(h), be32(h, off), new) == checksum_of(
            splice(h, off, be32_bytes(new)),
        ),
{
    let hi = (new / 0x1_0000) as u16;
    let lo = (new % 0x1_0000) as u16;
    let h1 = splice(h, off, be16_bytes(hi));
    lemma_be32_halves(h, off);
    lemma_splice_be32(h, off, new);
    lemma_header_word(h, (off / 2) as nat, hi);
    assert(h1[off + 2] == h[off + 2] && h1[off + 3] == h[off + 3]);
    assert(be16(h1, off + 2) == be16(h, off + 2));
    lemma_header_word(h1, (off / 2 + 1) as nat, lo);
}

/// **An address rewrite keeps the header checksum as good as it was.** The rewritten
/// packet parses, holds the new address, differs from the old one in the address and
/// the checksum field alone, and its header checksum is valid exactly if it was valid
/// before. A checksum that was what a recomputation gives is so afterwards, bit for bit.
pub proof fn law_addr_rewrite_keeps_checksum(s: Seq<u8>, off: int, new: u32)
    requires
        ipv4_error(s) is None,
        off == 12 || off == 16,
    ensures
        ipv4_error(addr_rewritten(s, off, new)) is None,
        be32(addr_rewritten(s, off, new), off) == new,
        addr_rewritten(s, off, new).len() == s.len(),
        forall|i: int|
            0 <= i < s.len() && !(off <= i < off + 4) && !(10 <= i < 12) ==> #[trigger] addr_rewritten(
                s,
                off,
                new,
            )[i] == s[i],
        header_valid(addr_rewritten(s, off, new)) == header_valid(s),
        header_sound(s) ==> header_sound(addr_rewritten(s, off, new)),
{
    let t = addr_rewritten(s, off, new);
    let n = ihl_of(s) as int;
    let h = s.subrange(0, n);
    assert(t[0] == s[0] && t[2] == s[2] && t[3] == s[3]);
    assert(be16(t, 2) == be16(s, 2));
    assert(be16(h, 10) == be16(s, 10) && be32(h, off) == be32(s, off));
    assert(t.subrange(0, n) =~= addr_rewritten(h, off, new));
    lemma_be32_read(t, off, new);
    lemma_addr_rewrite_header(h, off, new);
    let blank = blank_header(s);
    assert(be32(blank, off) == be32(s, off));
    lemma_header_addr(blank, off, new);
    lemma_be16_read(t, 10, updated_dword(be16(s, 10), be32(s, off), new));
    assert(blank_header(t) =~= splice(blank, off, be32_bytes(new)));
}

/// **Lowering the time to live keeps the header checksum as good as it was**, and what a
/// recomputation gives if it was that.
pub proof fn law_ttl_lowered_keeps_checksum(s: Seq<u8>)
    requires
        ipv4_error(s) is None,
        s[8] > 0,
    ensures
        ipv4_error(ttl_lowered(s)) is None,
        ttl_lowered(s)[8] == s[8] - 1,
        ttl_lowered(s)[9] == s[9],
        header_valid(ttl_lowered(s)) == header_valid(s),
        header_sound(s) ==> header_sound(ttl_lowered(s)),
{
    let t = ttl_lowered(s);
    let n = ihl_of(s) as int;
    let word = (be16(s, 8) - 256) as u16;
    let hc = be16(s, 10);
    let c = updated_word(hc, be16(s, 8), word);
    let h = s.subrange(0, n);
    let h1 = splice(h, 8, be16_bytes(word));
    let h2 = splice(h1, 10, be16_bytes(c));
    assert(t[0] == s[0] && t[2] == s[2] && t[3] == s[3]);
    assert(be16(t, 2) == be16(s, 2));
    assert(t.subrange(0, n) =~= h2);
    lemma_be16_bytes_of(seq![(s[8] - 1) as u8, s[9]], 0);
    assert(be16(seq![(s[8] - 1) as u8, s[9]], 0) == word);
    assert(be16(h, 8) == be16(s, 8));
    assert(h1[10] == s[10] && h1[11] == s[11]);
    assert(be16(h1, 10) == hc);
    lemma_word_sum_splice(h, 4, word);
    lemma_word_sum_splice(h1, 5, c);
    lemma_updated_word_residue(hc, be16(s, 8), word);
    lemma_same_residue(
        word_sum(h2) as int,
        word_sum(h) as int,
        c + word - hc - be16(s, 8),
    );
    lemma_header_sum(h);
    lemma_header_sum(h2);
    let blank = blank_header(s);
    assert(be16(blank, 8) == be16(s, 8));
    lemma_header_word(blank, 4, word);
    lemma_be16_read(t, 10, c);
    assert(blank_header(t) =~= splice(blank, 8, be16_bytes(word)));
}

proof fn lemma_full_header_fields(
    src: Ipv4Addr,
    dst: Ipv4Addr,
    protocol: u8,
    ttl: u8,
    identification: u16,
    dont_fragment: bool,
    payload_len: u16,
)
    ensures
        ({
            let full = full_header(
                src,
                dst,
                protocol,
                ttl,
                identification,
                dont_fragment,
                payload_len,
            );
            &&& full.len() == 20
            &&& full[0] == 0x45
            &&& be16(full, 2) == (20 + payload_len) % 0x1_0000
            &&& be16(full, 4) == identification
            &&& full[8] == ttl
            &&& full[9] == protocol
            &&& be32(full, 12) == src.bits
            &&& be32(full, 16) == dst.bits
        }),
{
    let full = full_header(src, dst, protocol, ttl, identification, dont_fragment, payload_len);
    let total = ((20 + payload_len) % 0x1_0000) as u16;
    lemma_be16_read(full, 2, total);
    lemma_be16_read(full, 4, identification);
    lemma_be32_read(full, 12, src.bits);
    lemma_be32_read(full, 16, dst.bits);
}

/// **A header that was just written is valid**, and reads back as it was written. It
/// parses, unless its total length field wrapped round to less than a header.
pub proof fn law_written_header_is_valid(
    s: Seq<u8>,
    src: Ipv4Addr,
    dst: Ipv4Addr,
    protocol: u8,
    ttl: u8,
    identification: u16,
    dont_fragment: bool,
    payload_len: u16,
)
    requires
        s.len() >= IPV4_MIN_HDR_LEN,
    ensures
        ({
            let t = splice(
                s,
                0,
                full_header(src, dst, protocol, ttl, identification, dont_fragment, payload_len),
            );
            &&& (20 + payload_len) % 0x1_0000 >= 20 ==> ipv4_error(t) is None
            &&& ihl_of(t) == 20
            &&& header_valid(t)
            &&& header_sound(t)
            &&& be16(t, 2) == (20 + payload_len) % 0x1_0000
            &&& be16(t, 4) == identification
            &&& t[8] == ttl
            &&& t[9] == protocol
            &&& addr_at(t, 12) == src
            &&& addr_at(t, 16) == dst
        }),
{
    let bare = bare_header(src, dst, protocol, ttl, identification, dont_fragment, payload_len);
    let full = full_header(src, dst, protocol, ttl, identification, dont_fragment, payload_len);
    let t = splice(s, 0, full);
    assert(bare.len() == 20);
    assert(t.subrange(0, 20) =~= full);
    lemma_full_header_fields(
        src,
        dst,
        protocol,
        ttl,
        identification,
        dont_fragment,
        payload_len,
    );
    assert(be16(t, 2) == be16(full, 2));
    assert(be16(t, 4) == be16(full, 4));
    assert(be32(t, 12) == be32(full, 12));
    assert(be32(t, 16) == be32(full, 16));
    assert(be16(bare, 10) == 0);
    lemma_word_sum_fits(bare);
    law_stored_checksum_verifies(bare, 5);
    lemma_be16_read(t, 10, checksum_of(bare));
    lemma_be16_bytes_of(bare, 10);
    assert(blank_header(t) =~= bare);
}

} // verus!
