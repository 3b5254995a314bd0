//! UDP parsing and in-place port/checksum rewriting.
//!
//! Because the UDP checksum covers the IPv4 pseudo-header (which holds the
//! addresses), a NAT rewrite of an address OR a port must patch this checksum. The
//! checksum is patched by 16-bit difference, so the NAT layer never rescans the
//! payload. UDP over IPv4 may also carry checksum 0 ("not computed"): in that case
//! it is left untouched.

use vstd::prelude::*;
use crate::addr::Ipv4Addr;
use crate::checksum;
use crate::checksum::{
    complement_of, updated_word, word_sum, lemma_folded_unique, lemma_updated_word,
    lemma_verifies_iff_multiple, lemma_word_sum_fits, lemma_word_sum_splice,
};
use crate::ipv4::{proto, pseudo_header_sum, pseudo_sum};
use crate::wire::{
    be16, be16_bytes, get_be16, put_be16, skip, splice, tail, lemma_be16_bytes_of, lemma_be16_read,
    lemma_be16_round_trip,
};
use crate::ParseError;

verus! {

broadcast use crate::wire::group_field_lengths;

pub const UDP_HDR_LEN: usize = 8;

/// The error for a datagram of `got` bytes that is too short for the header.
pub open spec fn udp_too_short(got: nat) -> ParseError {
    ParseError::TooShort { what: "udp", need: UDP_HDR_LEN, got: got as usize }
}

/// A computed checksum of 0 is transmitted as `0xffff` (RFC 768).
pub open spec fn nonzero(c: u16) -> u16 {
    if c == 0 {
        0xffff
    } else {
        c
    }
}

/// The datagram `s` with its checksum adjusted for a covered word that changed from
/// `m` to `m2`. A checksum of 0 stays.
pub open spec fn udp_patched(s: Seq<u8>, m: u16, m2: u16) -> Seq<u8> {
    if be16(s, 6) == 0 {
        s
    } else {
        splice(s, 6, be16_bytes(nonzero(updated_word(be16(s, 6), m, m2))))
    }
}

/// The same for a covered 32-bit address that changed.
pub open spec fn udp_patched_dword(s: Seq<u8>, m: u32, m2: u32) -> Seq<u8> {
    udp_patched(
        udp_patched(s, (m / 0x1_0000) as u16, (m2 / 0x1_0000) as u16),
        (m % 0x1_0000) as u16,
        (m2 % 0x1_0000) as u16,
    )
}

/// `s` with its source port replaced and the checksum adjusted.
pub open spec fn udp_src_set(s: Seq<u8>, port: u16) -> Seq<u8> {
    udp_patched(splice(s, 0, be16_bytes(port)), be16(s, 0), port)
}

/// `s` with its destination port replaced and the checksum adjusted.
pub open spec fn udp_dst_set(s: Seq<u8>, port: u16) -> Seq<u8> {
    udp_patched(splice(s, 2, be16_bytes(port)), be16(s, 2), port)
}

#[derive(Clone, Copy)]
pub struct UdpView<'a> {
    buf: &'a [u8],
}

impl<'a> View for UdpView<'a> {
    type V = Seq<u8>;

    closed spec fn view(&self) -> Seq<u8> {
        self.buf@
    }
}

impl<'a> UdpView<'a> {
    #[verifier::type_invariant]
    spec fn holds_header(self) -> bool {
        self.buf@.len() >= UDP_HDR_LEN
    }

    pub fn parse(buf: &'a [u8]) -> (r: Result<Self, ParseError>)
        ensures
            buf@.len() >= UDP_HDR_LEN ==> (r matches Ok(v) && v@ == buf@),
            buf@.len() < UDP_HDR_LEN ==> r == Err::<Self, ParseError>(udp_too_short(buf@.len())),
    {
        if buf.len() < UDP_HDR_LEN {
            return Err(ParseError::TooShort { what: "udp", need: UDP_HDR_LEN, got: buf.len() });
        }
        Ok(Self { buf })
    }

    #[must_use]
    pub fn src_port(&self) -> (r: u16)
        ensures
            r == be16(self@, 0),
    {
        proof {
            use_type_invariant(self);
        }
        get_be16(self.buf, 0)
    }

    #[must_use]
    pub fn dst_port(&self) -> (r: u16)
        ensures
            r == be16(self@, 2),
    {
        proof {
            use_type_invariant(self);
        }
        get_be16(self.buf, 2)
    }

    #[must_use]
    pub fn length(&self) -> (r: u16)
        ensures
            r == be16(self@, 4),
    {
        proof {
            use_type_invariant(self);
        }
        get_be16(self.buf, 4)
    }

    #[must_use]
    pub fn checksum(&self) -> (r: u16)
        ensures
            r == be16(self@, 6),
    {
        proof {
            use_type_invariant(self);
        }
        get_be16(self.buf, 6)
    }

    #[must_use]
    pub fn payload(&self) -> (r: &'a [u8])
        ensures
            r@ == tail(self@, UDP_HDR_LEN as int),
    {
        proof {
            use_type_invariant(self);
        }
        skip(self.buf, UDP_HDR_LEN)
    }
}

pub struct UdpViewMut<'a> {
    pub buf: &'a mut [u8],
}

impl<'a> View for UdpViewMut<'a> {
    type V = Seq<u8>;

    open spec fn view(&self) -> Seq<u8> {
        self.buf@
    }
}

impl<'a> UdpViewMut<'a> {
    /// The view holds a full header.
    pub open spec fn wf(&self) -> bool {
        self@.len() >= UDP_HDR_LEN
    }

    pub fn parse(buf: &'a mut [u8]) -> (r: Result<Self, ParseError>)
        ensures
            old(buf)@.len() >= UDP_HDR_LEN ==> (r matches Ok(v) && v.wf() && v@ == old(buf)@
                && final(v.buf)@ == final(buf)@),
            old(buf)@.len() < UDP_HDR_LEN ==> r == Err::<Self, ParseError>(
                udp_too_short(old(buf)@.len()),
            ) && final(buf)@ == old(buf)@,
    {
        if buf.len() < UDP_HDR_LEN {
            return Err(ParseError::TooShort { what: "udp", need: UDP_HDR_LEN, got: buf.len() });
        }
        Ok(Self { buf })
    }

    #[must_use]
    pub fn src_port(&self) -> (r: u16)
        requires
            self.wf(),
        ensures
            r == be16(self@, 0),
    {
        get_be16(self.buf, 0)
    }

    #[must_use]
    pub fn dst_port(&self) -> (r: u16)
        requires
            self.wf(),
        ensures
            r == be16(self@, 2),
    {
        get_be16(self.buf, 2)
    }

    #[must_use]
    pub fn checksum(&self) -> (r: u16)
        requires
            self.wf(),
        ensures
            r == be16(self@, 6),
    {
        get_be16(self.buf, 6)
    }

    fn set_checksum(&mut self, c: u16)
        requires
            old(self).wf(),
        ensures
            final(self).wf(),
            final(self)@ == splice(old(self)@, 6, be16_bytes(c)),
            final(final(self).buf)@ == final(old(self).buf)@,
    {
        put_be16(self.buf, 6, c);
    }

    /// UDP-over-IPv4 permits a 0 checksum meaning "not computed".
    #[must_use]
    pub fn checksum_disabled(&self) -> (r: bool)
        requires
            self.wf(),
        ensures
            r == (be16(self@, 6) == 0),
    {
        self.checksum() == 0
    }

    /// Patch the checksum for a changed 16-bit word (a port, or half an address
    /// in the pseudo-header). No-op when checksum is disabled (0).
    pub fn patch_checksum_word(&mut self, was: u16, now: u16)
        requires
            old(self).wf(),
        ensures
            final(self).wf(),
            final(self)@ == udp_patched(old(self)@, was, now),
            final(final(self).buf)@ == final(old(self).buf)@,
    {
        if self.checksum_disabled() {
            return;
        }
        let c: u16 = checksum::update_word(self.checksum(), was, now);
        // RFC 768: a computed checksum of 0 is transmitted as 0xffff.
        self.set_checksum(
            if c == 0 {
                0xffff
            } else {
                c
            },
        );
    }

    /// Patch the checksum for a changed 32-bit address (pseudo-header). No-op when disabled.
    pub fn patch_checksum_dword(&mut self, was: u32, now: u32)
        requires
            old(self).wf(),
        ensures
            final(self).wf(),
            final(self)@ == udp_patched_dword(old(self)@, was, now),
            final(final(self).buf)@ == final(old(self).buf)@,
    {
        self.patch_checksum_word((was / 0x1_0000) as u16, (now / 0x1_0000) as u16);
        self.patch_checksum_word((was % 0x1_0000) as u16, (now % 0x1_0000) as u16);
    }

    pub fn set_src_port(&mut self, port: u16)
        requires
            old(self).wf(),
        ensures
            final(self).wf(),
            final(self)@ == udp_src_set(old(self)@, port),
            final(final(self).buf)@ == final(old(self).buf)@,
    {
        let was: u16 = self.src_port();
        put_be16(self.buf, 0, port);
        self.patch_checksum_word(was, port);
    }

    pub fn set_dst_port(&mut self, port: u16)
        requires
            old(self).wf(),
        ensures
            final(self).wf(),
            final(self)@ == udp_dst_set(old(self)@, port),
            final(final(self).buf)@ == final(old(self).buf)@,
    {
        let was: u16 = self.dst_port();
        put_be16(self.buf, 2, port);
        self.patch_checksum_word(was, port);
    }
}

/// The sum that the checksum of the datagram `l4` covers: pseudo-header, UDP header
/// and payload. The length enters modulo 2^16, which is what its field holds.
pub open spec fn udp_covered(src: Ipv4Addr, dst: Ipv4Addr, l4: Seq<u8>) -> nat {
    pseudo_sum(src, dst, proto::UDP, (l4.len() % 0x1_0000) as u16) + word_sum(l4)
}

/// The checksum of the datagram `l4`.
pub open spec fn udp_checksum(src: Ipv4Addr, dst: Ipv4Addr, l4: Seq<u8>) -> u16 {
    nonzero(complement_of((udp_covered(src, dst, l4) % 0x1_0000_0000) as int))
}

/// Compute a fresh UDP checksum over the pseudo-header + UDP header + payload.
/// `l4` is the UDP header followed by its payload. Used when building overlay
/// packets from scratch. Returns the value to store (0 becomes 0xffff).
#[must_use]
pub fn compute_checksum(src: Ipv4Addr, dst: Ipv4Addr, l4: &[u8]) -> (r: u16)
    ensures
        r == udp_checksum(src, dst, l4@),
{
    let n: usize = l4.len();
    let pseudo: u32 = pseudo_header_sum(src, dst, proto::UDP, (n % 0x1_0000) as u16);
    let acc: u32 = checksum::accumulate(pseudo, l4);
    let c: u16 = checksum::finalize(acc);
    if c == 0 {
        0xffff
    } else {
        c
    }
}

/// The 8 header bytes, with a zero checksum field. The length is taken modulo 2^16.
pub open spec fn udp_header(src_port: u16, dst_port: u16, payload_len: u16) -> Seq<u8> {
    be16_bytes(src_port) + be16_bytes(dst_port) + be16_bytes(
        ((8 + payload_len) % 0x1_0000) as u16,
    ) + be16_bytes(0)
}

/// Write an 8-byte UDP header. Caller fills payload separately then may call
/// [`compute_checksum`] over header+payload and store it.
pub fn write_header(buf: &mut [u8], src_port: u16, dst_port: u16, payload_len: u16) -> (r: usize)
    requires
        old(buf)@.len() >= UDP_HDR_LEN,
    ensures
        r == UDP_HDR_LEN,
        final(buf)@ == splice(old(buf)@, 0, udp_header(src_port, dst_port, payload_len)),
{
    put_be16(buf, 0, src_port);
    put_be16(buf, 2, dst_port);
    let len: u16 = 8u16.wrapping_add(payload_len);
    put_be16(buf, 4, len);
    put_be16(buf, 6, 0);  // checksum filled later
    assert(buf@ =~= splice(old(buf)@, 0, udp_header(src_port, dst_port, payload_len)));
    UDP_HDR_LEN
}

/// `s` with a zero checksum field.
pub open spec fn udp_blank(s: Seq<u8>) -> Seq<u8> {
    splice(s, 6, be16_bytes(0))
}

/// Whether the stored checksum of the datagram `s` is what a computation from scratch
/// gives, or 0 for "not computed".
pub open spec fn udp_sound(src: Ipv4Addr, dst: Ipv4Addr, s: Seq<u8>) -> bool {
    be16(s, 6) == 0 || be16(s, 6) == udp_checksum(src, dst, udp_blank(s))
}

/// Whether the stored checksum is the one for the covered sum `sum`, or 0.
spec fn stored_for(s: Seq<u8>, sum: int) -> bool {
    be16(s, 6) == 0 || be16(s, 6) == nonzero(complement_of(sum))
}

proof fn lemma_nonzero_update(sum: int, m: u16, m2: u16)
    requires
        sum > m,
    ensures
        nonzero(updated_word(nonzero(complement_of(sum)), m, m2)) == nonzero(
            complement_of(sum - m + m2),
        ),
{
    lemma_verifies_iff_multiple(sum);
    lemma_verifies_iff_multiple(sum - m + m2);
    if complement_of(sum) != 0 {
        lemma_updated_word(sum, m, m2);
    } else {
        let inside = (0xffff - m) + m2;
        lemma_verifies_iff_multiple(inside);
        if inside > 0 {
            assert((inside - (sum - m + m2)) % 0xffff == 0);
            lemma_folded_unique(inside, sum - m + m2);
        } else {
            checksum::lemma_folded_small(0);
        }
    }
}

proof fn lemma_udp_patch(s: Seq<u8>, sum: int, m: u16, m2: u16)
    requires
        s.len() >= UDP_HDR_LEN,
        stored_for(s, sum),
        sum > m,
    ensures
        stored_for(udp_patched(s, m, m2), sum - m + m2),
        udp_blank(udp_patched(s, m, m2)) == udp_blank(s),
        udp_patched(s, m, m2).len() == s.len(),
        be16(udp_patched(s, m, m2), 6) == 0 <==> be16(s, 6) == 0,
{
    let c = nonzero(updated_word(be16(s, 6), m, m2));
    lemma_be16_round_trip(s, 6, c);
    lemma_nonzero_update(sum, m, m2);
    assert(udp_blank(udp_patched(s, m, m2)) =~= udp_blank(s));
}

/// Where the covered sum fits the accumulator, the checksum is its complement.
proof fn lemma_udp_checksum_of(src: Ipv4Addr, dst: Ipv4Addr, s: Seq<u8>)
    requires
        s.len() <= 0xffff,
    ensures
        udp_checksum(src, dst, s) == nonzero(complement_of(udp_covered(src, dst, s) as int)),
        udp_covered(src, dst, s) > word_sum(s),
{
    lemma_word_sum_fits(s);
}

proof fn lemma_udp_patch_dword(s: Seq<u8>, sum: int, m: u32, m2: u32)
    requires
        s.len() >= UDP_HDR_LEN,
        stored_for(s, sum),
        sum > m / 0x1_0000 + m % 0x1_0000,
    ensures
        stored_for(
            udp_patched_dword(s, m, m2),
            sum - m / 0x1_0000 - m % 0x1_0000 + m2 / 0x1_0000 + m2 % 0x1_0000,
        ),
        udp_blank(udp_patched_dword(s, m, m2)) == udp_blank(s),
        udp_patched_dword(s, m, m2).len() == s.len(),
        be16(udp_patched_dword(s, m, m2), 6) == 0 <==> be16(s, 6) == 0,
{
    let hi = (m / 0x1_0000) as u16;
    let hi2 = (m2 / 0x1_0000) as u16;
    lemma_udp_patch(s, sum, hi, hi2);
    lemma_udp_patch(
        udp_patched(s, hi, hi2),
        sum - hi + hi2,
        (m % 0x1_0000) as u16,
        (m2 % 0x1_0000) as u16,
    );
}

/// **Patching for a new source address keeps the checksum sound**: it is bit for bit
/// what a computation from scratch with the new address gives, and 0 stays 0.
pub proof fn law_udp_src_addr_patch(src: Ipv4Addr, dst: Ipv4Addr, new: Ipv4Addr, s: Seq<u8>)
    requires
        UDP_HDR_LEN <= s.len() <= 0xffff,
        udp_sound(src, dst, s),
    ensures
        udp_sound(new, dst, udp_patched_dword(s, src.bits, new.bits)),
        be16(udp_patched_dword(s, src.bits, new.bits), 6) == 0 <==> be16(s, 6) == 0,
{
    let blank = udp_blank(s);
    lemma_udp_checksum_of(src, dst, blank);
    lemma_udp_checksum_of(new, dst, blank);
    lemma_udp_patch_dword(s, udp_covered(src, dst, blank) as int, src.bits, new.bits);
}

/// **Patching for a new destination address keeps the checksum sound.**
pub proof fn law_udp_dst_addr_patch(src: Ipv4Addr, dst: Ipv4Addr, new: Ipv4Addr, s: Seq<u8>)
    requires
        UDP_HDR_LEN <= s.len() <= 0xffff,
        udp_sound(src, dst, s),
    ensures
        udp_sound(src, new, udp_patched_dword(s, dst.bits, new.bits)),
        be16(udp_patched_dword(s, dst.bits, new.bits), 6) == 0 <==> be16(s, 6) == 0,
{
    let blank = udp_blank(s);
    lemma_udp_checksum_of(src, dst, blank);
    lemma_udp_checksum_of(src, new, blank);
    lemma_udp_patch_dword(s, udp_covered(src, dst, blank) as int, dst.bits, new.bits);
}

proof fn lemma_udp_port_set(src: Ipv4Addr, dst: Ipv4Addr, s: Seq<u8>, k: nat, port: u16)
    requires
        UDP_HDR_LEN <= s.len() <= 0xffff,
        udp_sound(src, dst, s),
        k == 0 || k == 1,
    ensures
        ({
            let t = udp_patched(splice(s, 2 * k as int, be16_bytes(port)), be16(s, 2 * k as int), port);
            &&& udp_sound(src, dst, t)
            &&& be16(t, 6) == 0 <==> be16(s, 6) == 0
            &&& be16(t, 2 * k as int) == port
        }),
{
    let o = 2 * k as int;
    let s1 = splice(s, o, be16_bytes(port));
    let t = udp_patched(s1, be16(s, o), port);
    let blank = udp_blank(s);
    let blank1 = splice(blank, o, be16_bytes(port));
    assert(udp_blank(s1) =~= blank1);
    assert(s1[6] == s[6] && s1[7] == s[7]);
    assert(be16(s1, 6) == be16(s, 6));
    assert(blank[o] == s[o] && blank[o + 1] == s[o + 1]);
    assert(be16(blank, o) == be16(s, o));
    lemma_word_sum_splice(blank, k, port);
    lemma_udp_checksum_of(src, dst, blank);
    lemma_udp_checksum_of(src, dst, blank1);
    lemma_udp_patch(s1, udp_covered(src, dst, blank) as int, be16(s, o), port);
    lemma_be16_round_trip(s, o, port);
    assert(t[o] == s1[o] && t[o + 1] == s1[o + 1]);
}

/// **Rewriting the source port keeps the checksum sound.**
pub proof fn law_udp_src_port_set(src: Ipv4Addr, dst: Ipv4Addr, s: Seq<u8>, port: u16)
    requires
        UDP_HDR_LEN <= s.len() <= 0xffff,
        udp_sound(src, dst, s),
    ensures
        udp_sound(src, dst, udp_src_set(s, port)),
        be16(udp_src_set(s, port), 6) == 0 <==> be16(s, 6) == 0,
        be16(udp_src_set(s, port), 0) == port,
{
    lemma_udp_port_set(src, dst, s, 0, port);
}

/// **Rewriting the destination port keeps the checksum sound.**
pub proof fn law_udp_dst_port_set(src: Ipv4Addr, dst: Ipv4Addr, s: Seq<u8>, port: u16)
    requires
        UDP_HDR_LEN <= s.len() <= 0xffff,
        udp_sound(src, dst, s),
    ensures
        udp_sound(src, dst, udp_dst_set(s, port)),
        be16(udp_dst_set(s, port), 6) == 0 <==> be16(s, 6) == 0,
        be16(udp_dst_set(s, port), 2) == port,
{
    lemma_udp_port_set(src, dst, s, 1, port);
}

/// **A header that was just written reads back**, with a checksum of 0.
pub proof fn law_written_udp_header_reads_back(
    s: Seq<u8>,
    src_port: u16,
    dst_port: u16,
    payload_len: u16,
)
    requires
        s.len() >= UDP_HDR_LEN,
    ensures
        ({
            let t = splice(s, 0, udp_header(src_port, dst_port, payload_len));
            &&& be16(t, 0) == src_port
            &&& be16(t, 2) == dst_port
            &&& be16(t, 4) == (8 + payload_len) % 0x1_0000
            &&& be16(t, 6) == 0
            &&& tail(t, UDP_HDR_LEN as int) == tail(s, UDP_HDR_LEN as int)
        }),
{
    let t = splice(s, 0, udp_header(src_port, dst_port, payload_len));
    lemma_be16_read(t, 0, src_port);
    lemma_be16_read(t, 2, dst_port);
    lemma_be16_read(t, 4, ((8 + payload_len) % 0x1_0000) as u16);
    lemma_be16_read(t, 6, 0);
    assert(tail(t, UDP_HDR_LEN as int) =~= tail(s, UDP_HDR_LEN as int));
}

/// **A checksum that was computed and stored is sound**, and never 0.
pub proof fn law_stored_udp_checksum_is_sound(src: Ipv4Addr, dst: Ipv4Addr, s: Seq<u8>)
    requires
        s.len() >= UDP_HDR_LEN,
        be16(s, 6) == 0,
    ensures
        udp_sound(src, dst, splice(s, 6, be16_bytes(udp_checksum(src, dst, s)))),
        be16(splice(s, 6, be16_bytes(udp_checksum(src, dst, s))), 6) != 0,
{
    let c = udp_checksum(src, dst, s);
    let t = splice(s, 6, be16_bytes(c));
    lemma_be16_round_trip(s, 6, c);
    lemma_be16_bytes_of(s, 6);
    assert(udp_blank(t) =~= s);
}

} // verus!
