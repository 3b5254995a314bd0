//! TCP header parsing and in-place port/checksum rewriting.
//!
//! Only the fixed part of the TCP header (ports + checksum) is ever touched. There
//! is no reassembly and no sequence tracking here: connection tracking lives in the
//! NAT engine and keys on the 5-tuple. The TCP checksum, like UDP, covers the
//! pseudo-header, so address rewrites must patch it too.

use vstd::prelude::*;
use crate::addr::Ipv4Addr;
use crate::checksum;
use crate::checksum::{
    complement_of, updated_word, word_sum, lemma_updated_word, lemma_word_sum_fits,
    lemma_word_sum_splice,
};
use crate::ipv4::{proto, pseudo_header_sum, pseudo_sum};
use crate::wire::{
    be16, be16_bytes, be32, get_be16, get_be32, put_be16, skip, splice, tail, lemma_be16_bytes_of,
    lemma_be16_round_trip,
};
use crate::ParseError;

pub mod flag;

verus! {

broadcast use crate::wire::group_field_lengths;

pub const TCP_MIN_HDR_LEN: usize = 20;

/// The header length that a segment declares, in bytes.
pub open spec fn data_offset_of(s: Seq<u8>) -> nat {
    (s[12] / 16) as nat * 4
}

/// Why `s` is not a parsable TCP segment; `None` if it is one.
pub open spec fn tcp_error(s: Seq<u8>) -> Option<ParseError> {
    if s.len() < TCP_MIN_HDR_LEN {
        Some(ParseError::TooShort { what: "tcp", need: TCP_MIN_HDR_LEN, got: s.len() as usize })
    } else if data_offset_of(s) < TCP_MIN_HDR_LEN || data_offset_of(s) > s.len() {
        Some(ParseError::BadHeaderLen { what: "tcp", len: data_offset_of(s) as usize })
    } else {
        None
    }
}

/// The segment `s` with its checksum adjusted for a covered word that changed from
/// `m` to `m2`.
pub open spec fn tcp_patched(s: Seq<u8>, m: u16, m2: u16) -> Seq<u8> {
    splice(s, 16, be16_bytes(updated_word(be16(s, 16), m, m2)))
}

/// The same for a covered 32-bit address that changed.
pub open spec fn tcp_patched_dword(s: Seq<u8>, m: u32, m2: u32) -> Seq<u8> {
    tcp_patched(
        tcp_patched(s, (m / 0x1_0000) as u16, (m2 / 0x1_0000) as u16),
        (m % 0x1_0000) as u16,
        (m2 % 0x1_0000) as u16,
    )
}

/// `s` with its source port replaced and the checksum adjusted.
pub open spec fn tcp_src_set(s: Seq<u8>, port: u16) -> Seq<u8> {
    tcp_patched(splice(s, 0, be16_bytes(port)), be16(s, 0), port)
}

/// `s` with its destination port replaced and the checksum adjusted.
pub open spec fn tcp_dst_set(s: Seq<u8>, port: u16) -> Seq<u8> {
    tcp_patched(splice(s, 2, be16_bytes(port)), be16(s, 2), port)
}

#[derive(Clone, Copy)]
pub struct TcpView<'a> {
    buf: &'a [u8],
}

impl<'a> View for TcpView<'a> {
    type V = Seq<u8>;

    closed spec fn view(&self) -> Seq<u8> {
        self.buf@
    }
}

impl<'a> TcpView<'a> {
    #[verifier::type_invariant]
    spec fn parsed(self) -> bool {
        tcp_error(self.buf@) is None
    }

    pub fn parse(buf: &'a [u8]) -> (r: Result<Self, ParseError>)
        ensures
            match tcp_error(buf@) {
                None => r matches Ok(v) && v@ == buf@,
                Some(e) => r == Err::<Self, ParseError>(e),
            },
    {
        if buf.len() < TCP_MIN_HDR_LEN {
            return Err(ParseError::TooShort { what: "tcp", need: TCP_MIN_HDR_LEN, got: buf.len() });
        }
        let data_off: usize = (buf[12] / 16) as usize * 4;
        if data_off < TCP_MIN_HDR_LEN || data_off > buf.len() {
            return Err(ParseError::BadHeaderLen { what: "tcp", len: data_off });
        }
        Ok(Self { buf })
    }

    #[must_use]
    pub fn src_port(&self) -> (r: u16)
        ensures
            r == be16(self@, 0),
    {
        proof {
            use_type_invariant(self);
        }
        get_be16(self.buf, 0)
    }

    #[must_use]
    pub fn dst_port(&self) -> (r: u16)
        ensures
            r == be16(self@, 2),
    {
        proof {
            use_type_invariant(self);
        }
        get_be16(self.buf, 2)
    }

    #[must_use]
    pub fn seq(&self) -> (r: u32)
        ensures
            r == be32(self@, 4),
    {
        proof {
            use_type_invariant(self);
        }
        get_be32(self.buf, 4)
    }

    #[must_use]
    pub fn ack(&self) -> (r: u32)
        ensures
            r == be32(self@, 8),
    {
        proof {
            use_type_invariant(self);
        }
        get_be32(self.buf, 8)
    }

    #[must_use]
    pub fn data_offset(&self) -> (r: usize)
        ensures
            r == data_offset_of(self@),
    {
        proof {
            use_type_invariant(self);
        }
        (self.buf[12] / 16) as usize * 4
    }

    #[must_use]
    pub fn flags(&self) -> (r: u8)
        ensures
            r == self@[13],
    {
        proof {
            use_type_invariant(self);
        }
        self.buf[13]
    }

    /// Whether any of the flag bits `f` is set.
    #[must_use]
    pub fn has_flag(&self, f: u8) -> (r: bool)
        ensures
            r == (self@[13] & f != 0),
    {
        self.flags() & f != 0
    }

    #[must_use]
    pub fn window(&self) -> (r: u16)
        ensures
            r == be16(self@, 14),
    {
        proof {
            use_type_invariant(self);
        }
        get_be16(self.buf, 14)
    }

    #[must_use]
    pub fn checksum(&self) -> (r: u16)
        ensures
            r == be16(self@, 16),
    {
        proof {
            use_type_invariant(self);
        }
        get_be16(self.buf, 16)
    }

    #[must_use]
    pub fn payload(&self) -> (r: &'a [u8])
        ensures
            r@ == tail(self@, data_offset_of(self@) as int),
    {
        proof {
            use_type_invariant(self);
        }
        skip(self.buf, self.data_offset())
    }
}

pub struct TcpViewMut<'a> {
    pub buf: &'a mut [u8],
}

impl<'a> View for TcpViewMut<'a> {
    type V = Seq<u8>;

    open spec fn view(&self) -> Seq<u8> {
        self.buf@
    }
}

impl<'a> TcpViewMut<'a> {
    /// The view holds a segment that parses.
    pub open spec fn wf(&self) -> bool {
        tcp_error(self@) is None
    }

    pub fn parse(buf: &'a mut [u8]) -> (r: Result<Self, ParseError>)
        ensures
            match tcp_error(old(buf)@) {
                None => r matches Ok(v) && v.wf() && v@ == old(buf)@ && final(v.buf)@ == final(buf)@,
                Some(e) => r == Err::<Self, ParseError>(e) && final(buf)@ == old(buf)@,
            },
    {
        match TcpView::parse(buf) {
            Ok(_) => {},
            Err(e) => {
                return Err(e);
            },
        }
        Ok(Self { buf })
    }

    #[must_use]
    pub fn src_port(&self) -> (r: u16)
        requires
            self.wf(),
        ensures
            r == be16(self@, 0),
    {
        get_be16(self.buf, 0)
    }

    #[must_use]
    pub fn dst_port(&self) -> (r: u16)
        requires
            self.wf(),
        ensures
            r == be16(self@, 2),
    {
        get_be16(self.buf, 2)
    }

    #[must_use]
    pub fn checksum(&self) -> (r: u16)
        requires
            self.wf(),
        ensures
            r == be16(self@, 16),
    {
        get_be16(self.buf, 16)
    }

    fn set_checksum(&mut self, c: u16)
        requires
            old(self).wf(),
        ensures
            final(self).wf(),
            final(self)@ == splice(old(self)@, 16, be16_bytes(c)),
            final(final(self).buf)@ == final(old(self).buf)@,
    {
        put_be16(self.buf, 16, c);
    }

    /// Patch the checksum for a changed 16-bit word.
    pub fn patch_checksum_word(&mut self, was: u16, now: u16)
        requires
            old(self).wf(),
        ensures
            final(self).wf(),
            final(self)@ == tcp_patched(old(self)@, was, now),
            final(final(self).buf)@ == final(old(self).buf)@,
    {
        let c: u16 = checksum::update_word(self.checksum(), was, now);
        self.set_checksum(c);
    }

    /// Patch the checksum for a changed 32-bit address (pseudo-header).
    pub fn patch_checksum_dword(&mut self, was: u32, now: u32)
        requires
            old(self).wf(),
        ensures
            final(self).wf(),
            final(self)@ == tcp_patched_dword(old(self)@, was, now),
            final(final(self).buf)@ == final(old(self).buf)@,
    {
        self.patch_checksum_word((was / 0x1_0000) as u16, (now / 0x1_0000) as u16);
        self.patch_checksum_word((was % 0x1_0000) as u16, (now % 0x1_0000) as u16);
    }

    pub fn set_src_port(&mut self, port: u16)
        requires
            old(self).wf(),
        ensures
            final(self).wf(),
            final(self)@ == tcp_src_set(old(self)@, port),
            final(final(self).buf)@ == final(old(self).buf)@,
    {
        let was: u16 = self.src_port();
        put_be16(self.buf, 0, port);
        self.patch_checksum_word(was, port);
    }

    pub fn set_dst_port(&mut self, port: u16)
        requires
            old(self).wf(),
        ensures
            final(self).wf(),
            final(self)@ == tcp_dst_set(old(self)@, port),
            final(final(self).buf)@ == final(old(self).buf)@,
    {
        let was: u16 = self.dst_port();
        put_be16(self.buf, 2, port);
        self.patch_checksum_word(was, port);
    }
}

/// The sum that the checksum of the segment `l4` covers: pseudo-header, TCP header
/// and payload. The length enters modulo 2^16.
pub open spec fn tcp_covered(src: Ipv4Addr, dst: Ipv4Addr, l4: Seq<u8>) -> nat {
    pseudo_sum(src, dst, proto::TCP, (l4.len() % 0x1_0000) as u16) + word_sum(l4)
}

/// The checksum of the segment `l4`.
pub open spec fn tcp_checksum(src: Ipv4Addr, dst: Ipv4Addr, l4: Seq<u8>) -> u16 {
    complement_of((tcp_covered(src, dst, l4) % 0x1_0000_0000) as int)
}

/// Compute a fresh TCP checksum over pseudo-header + TCP segment. `l4` is the TCP
/// header followed by payload. Used when synthesizing segments.
#[must_use]
pub fn compute_checksum(src: Ipv4Addr, dst: Ipv4Addr, l4: &[u8]) -> (r: u16)
    ensures
        r == tcp_checksum(src, dst, l4@),
{
    let n: usize = l4.len();
    let pseudo: u32 = pseudo_header_sum(src, dst, proto::TCP, (n % 0x1_0000) as u16);
    let acc: u32 = checksum::accumulate(pseudo, l4);
    checksum::finalize(acc)
}

/// `s` with a zero checksum field.
pub open spec fn tcp_blank(s: Seq<u8>) -> Seq<u8> {
    splice(s, 16, be16_bytes(0))
}

/// Whether the stored checksum of the segment `s` is what a computation from scratch
/// gives.
pub open spec fn tcp_sound(src: Ipv4Addr, dst: Ipv4Addr, s: Seq<u8>) -> bool {
    be16(s, 16) == tcp_checksum(src, dst, tcp_blank(s))
}

proof fn lemma_tcp_patch(s: Seq<u8>, sum: int, m: u16, m2: u16)
    requires
        s.len() >= TCP_MIN_HDR_LEN,
        be16(s, 16) == complement_of(sum),
        sum > m,
    ensures
        be16(tcp_patched(s, m, m2), 16) == complement_of(sum - m + m2),
        tcp_blank(tcp_patched(s, m, m2)) == tcp_blank(s),
        tcp_patched(s, m, m2).len() == s.len(),
{
    lemma_be16_round_trip(s, 16, updated_word(be16(s, 16), m, m2));
    lemma_updated_word(sum, m, m2);
    assert(tcp_blank(tcp_patched(s, m, m2)) =~= tcp_blank(s));
}

proof fn lemma_tcp_patch_dword(s: Seq<u8>, sum: int, m: u32, m2: u32)
    requires
        s.len() >= TCP_MIN_HDR_LEN,
        be16(s, 16) == complement_of(sum),
        sum > m / 0x1_0000 + m % 0x1_0000,
    ensures
        be16(tcp_patched_dword(s, m, m2), 16) == complement_of(
            sum - m / 0x1_0000 - m % 0x1_0000 + m2 / 0x1_0000 + m2 % 0x1_0000,
        ),
        tcp_blank(tcp_patched_dword(s, m, m2)) == tcp_blank(s),
        tcp_patched_dword(s, m, m2).len() == s.len(),
{
    let hi = (m / 0x1_0000) as u16;
    let hi2 = (m2 / 0x1_0000) as u16;
    lemma_tcp_patch(s, sum, hi, hi2);
    lemma_tcp_patch(
        tcp_patched(s, hi, hi2),
        sum - hi + hi2,
        (m % 0x1_0000) as u16,
        (m2 % 0x1_0000) as u16,
    );
}

/// Where the covered sum fits the accumulator, the checksum is its complement.
proof fn lemma_tcp_checksum_of(src: Ipv4Addr, dst: Ipv4Addr, s: Seq<u8>)
    requires
        s.len() <= 0xffff,
    ensures
        tcp_checksum(src, dst, s) == complement_of(tcp_covered(src, dst, s) as int),
        tcp_covered(src, dst, s) > word_sum(s),
{
    lemma_word_sum_fits(s);
}

/// **Patching for a new source address keeps the checksum sound**: it is bit for bit
/// what a computation from scratch with the new address gives.
pub proof fn law_tcp_src_addr_patch(src: Ipv4Addr, dst: Ipv4Addr, new: Ipv4Addr, s: Seq<u8>)
    requires
        TCP_MIN_HDR_LEN <= s.len() <= 0xffff,
        tcp_sound(src, dst, s),
    ensures
        tcp_sound(new, dst, tcp_patched_dword(s, src.bits, new.bits)),
{
    let blank = tcp_blank(s);
    lemma_tcp_checksum_of(src, dst, blank);
    lemma_tcp_checksum_of(new, dst, blank);
    lemma_tcp_patch_dword(s, tcp_covered(src, dst, blank) as int, src.bits, new.bits);
}

/// **Patching for a new destination address keeps the checksum sound.**
pub proof fn law_tcp_dst_addr_patch(src: Ipv4Addr, dst: Ipv4Addr, new: Ipv4Addr, s: Seq<u8>)
    requires
        TCP_MIN_HDR_LEN <= s.len() <= 0xffff,
        tcp_sound(src, dst, s),
    ensures
        tcp_sound(src, new, tcp_patched_dword(s, dst.bits, new.bits)),
{
    let blank = tcp_blank(s);
    lemma_tcp_checksum_of(src, dst, blank);
    lemma_tcp_checksum_of(src, new, blank);
    lemma_tcp_patch_dword(s, tcp_covered(src, dst, blank) as int, dst.bits, new.bits);
}

proof fn lemma_tcp_port_set(src: Ipv4Addr, dst: Ipv4Addr, s: Seq<u8>, k: nat, port: u16)
    requires
        TCP_MIN_HDR_LEN <= s.len() <= 0xffff,
        tcp_sound(src, dst, s),
        k == 0 || k == 1,
    ensures
        ({
            let t = tcp_patched(splice(s, 2 * k as int, be16_bytes(port)), be16(s, 2 * k as int), port);
            &&& tcp_sound(src, dst, t)
            &&& be16(t, 2 * k as int) == port
        }),
{
    let o = 2 * k as int;
    let s1 = splice(s, o, be16_bytes(port));
    let t = tcp_patched(s1, be16(s, o), port);
    let blank = tcp_blank(s);
    let blank1 = splice(blank, o, be16_bytes(port));
    assert(tcp_blank(s1) =~= blank1);
    assert(s1[16] == s[16] && s1[17] == s[17]);
    assert(be16(s1, 16) == be16(s, 16));
    assert(blank[o] == s[o] && blank[o + 1] == s[o + 1]);
    assert(be16(blank, o) == be16(s, o));
    lemma_word_sum_splice(blank, k, port);
    lemma_tcp_checksum_of(src, dst, blank);
    lemma_tcp_checksum_of(src, dst, blank1);
    lemma_tcp_patch(s1, tcp_covered(src, dst, blank) as int, be16(s, o), port);
    lemma_be16_round_trip(s, o, port);
    assert(t[o] == s1[o] && t[o + 1] == s1[o + 1]);
}

/// **Rewriting the source port keeps the checksum sound.**
pub proof fn law_tcp_src_port_set(src: Ipv4Addr, dst: Ipv4Addr, s: Seq<u8>, port: u16)
    requires
        TCP_MIN_HDR_LEN <= s.len() <= 0xffff,
        tcp_sound(src, dst, s),
    ensures
        tcp_sound(src, dst, tcp_src_set(s, port)),
        be16(tcp_src_set(s, port), 0) == port,
{
    lemma_tcp_port_set(src, dst, s, 0, port);
}

/// **Rewriting the destination port keeps the checksum sound.**
pub proof fn law_tcp_dst_port_set(src: Ipv4Addr, dst: Ipv4Addr, s: Seq<u8>, port: u16)
    requires
        TCP_MIN_HDR_LEN <= s.len() <= 0xffff,
        tcp_sound(src, dst, s),
    ensures
        tcp_sound(src, dst, tcp_dst_set(s, port)),
        be16(tcp_dst_set(s, port), 2) == port,
{
    lemma_tcp_port_set(src, dst, s, 1, port);
}

/// **A checksum that was computed and stored is sound.**
pub proof fn law_stored_tcp_checksum_is_sound(src: Ipv4Addr, dst: Ipv4Addr, s: Seq<u8>)
    requires
        s.len() >= TCP_MIN_HDR_LEN,
        be16(s, 16) == 0,
    ensures
        tcp_sound(src, dst, splice(s, 16, be16_bytes(tcp_checksum(src, dst, s)))),
{
    let c = tcp_checksum(src, dst, s);
    let t = splice(s, 16, be16_bytes(c));
    lemma_be16_round_trip(s, 16, c);
    lemma_be16_bytes_of(s, 16);
    assert(tcp_blank(t) =~= s);
}

} // verus!
