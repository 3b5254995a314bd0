//! Ethernet II frame parsing/building (views over a byte buffer).
//!
//! 802.1Q VLAN tags are deliberately not supported: the overlay carries the
//! virtual-network id in the Andromeda header instead.

use vstd::prelude::*;
use crate::text::{
    chars_of, fields, hex2, lemma_fields_append, lemma_fields_single, lemma_hex2_reads_back, parse_u8,
    push_hex2, split_fields, u8_text,
};
use crate::wire::{
    be16, be16_bytes, get_be16, put_be16, put_bytes, skip, splice, tail, lemma_be16_read,
};
use crate::ParseError;

pub mod ethertype;

verus! {

broadcast use crate::wire::group_field_lengths;

/// Length of a fixed Ethernet II header (dst + src + ethertype), no VLAN.
pub const ETH_HDR_LEN: usize = 14;

/// A 48-bit MAC address.
#[derive(Clone, Copy, Debug, PartialEq, Eq, Hash)]
pub struct MacAddr(pub [u8; 6]);

/// Error returned when a MAC address string is malformed.
#[derive(Debug, Clone, Copy, PartialEq, Eq)]
pub struct MacParseError;

/// The six octets that `s` writes: hexadecimal numbers separated by colons or
/// dashes.
pub open spec fn mac_text(s: Seq<char>) -> Option<Seq<u8>> {
    let f = fields(s, ':', '-');
    if f.len() == 6 && (forall|k: int| 0 <= k < 6 ==> u8_text(#[trigger] f[k], 16) is Some) {
        Some(Seq::new(6, |k: int| u8_text(f[k], 16).unwrap()))
    } else {
        None
    }
}

/// The colon-separated form of the six octets `o`.
pub open spec fn mac_form(o: Seq<u8>) -> Seq<char> {
    hex2(o[0]) + ":"@ + hex2(o[1]) + ":"@ + hex2(o[2]) + ":"@ + hex2(o[3]) + ":"@ + hex2(o[4])
        + ":"@ + hex2(o[5])
}

/// The octets of the broadcast address.
pub open spec fn broadcast_octets() -> Seq<u8> {
    seq![0xffu8, 0xffu8, 0xffu8, 0xffu8, 0xffu8, 0xffu8]
}

impl View for MacAddr {
    type V = Seq<u8>;

    open spec fn view(&self) -> Seq<u8> {
        self.0@
    }
}

impl MacAddr {
    /// The broadcast address, all ones.
    #[must_use]
    pub fn broadcast() -> (r: MacAddr)
        ensures
            r@ == broadcast_octets(),
    {
        let octets: [u8; 6] = [0xff, 0xff, 0xff, 0xff, 0xff, 0xff];
        assert(octets@ =~= broadcast_octets());
        MacAddr(octets)
    }

    /// The all-zero address.
    #[must_use]
    pub fn zero() -> (r: MacAddr)
        ensures
            r@ == seq![0u8, 0u8, 0u8, 0u8, 0u8, 0u8],
    {
        let octets: [u8; 6] = [0, 0, 0, 0, 0, 0];
        assert(octets@ =~= seq![0u8, 0u8, 0u8, 0u8, 0u8, 0u8]);
        MacAddr(octets)
    }

    /// Whether the group bit, the lowest bit of the first octet, is set.
    #[must_use]
    pub fn is_multicast(&self) -> (r: bool)
        ensures
            r == (self@[0] % 2 == 1),
    {
        self.0[0] % 2 == 1
    }

    #[must_use]
    pub fn is_broadcast(&self) -> (r: bool)
        ensures
            r == (self@ == broadcast_octets()),
    {
        let r: bool = self.0[0] == 0xff && self.0[1] == 0xff && self.0[2] == 0xff && self.0[3]
            == 0xff && self.0[4] == 0xff && self.0[5] == 0xff;
        assert(r ==> self@ =~= broadcast_octets());
        r
    }

    /// Parse `aa:bb:cc:dd:ee:ff` (colon- or dash-separated hex octets).
    pub fn from_text(s: &str) -> (r: Result<MacAddr, MacParseError>)
        ensures
            match r {
                Ok(m) => mac_text(s@) == Some(m@),
                Err(_) => mac_text(s@) is None,
            },
    {
        let chars: Vec<char> = chars_of(s);
        let f: Vec<Vec<char>> = split_fields(chars.as_slice(), ':', '-');
        if f.len() != 6 {
            return Err(MacParseError);
        }
        let mut octets: [u8; 6] = [0, 0, 0, 0, 0, 0];
        let ghost want = fields(s@, ':', '-');
        let mut n: usize = 0;
        while n < 6
            invariant
                n <= 6,
                f@.len() == 6,
                want == fields(s@, ':', '-'),
                want.len() == 6,
                forall|k: int| 0 <= k < 6 ==> (#[trigger] f@[k])@ == want[k],
                forall|k: int| 0 <= k < n ==> u8_text(#[trigger] want[k], 16) == Some(octets@[k]),
            decreases 6 - n,
        {
            assert(f@[n as int]@ == want[n as int]);
            match parse_u8(f[n].as_slice(), 16) {
                Some(b) => {
                    octets[n] = b;
                },
                None => {
                    return Err(MacParseError);
                },
            }
            n = n + 1;
        }
        assert(mac_text(s@).unwrap() =~= octets@);
        Ok(MacAddr(octets))
    }

    /// The lower-case, colon-separated form of the address.
    #[must_use]
    pub fn to_string(&self) -> (r: String)
        ensures
            r@ == mac_form(self@),
    {
        let mut out: String = String::new();
        push_hex2(&mut out, self.0[0]);
        out.append(":");
        push_hex2(&mut out, self.0[1]);
        out.append(":");
        push_hex2(&mut out, self.0[2]);
        out.append(":");
        push_hex2(&mut out, self.0[3]);
        out.append(":");
        push_hex2(&mut out, self.0[4]);
        out.append(":");
        push_hex2(&mut out, self.0[5]);
        assert(out@ =~= mac_form(self@));
        out
    }
}

impl core::str::FromStr for MacAddr {
    type Err = MacParseError;

    fn from_str(s: &str) -> (r: Result<Self, Self::Err>)
        ensures
            match r {
                Ok(m) => mac_text(s@) == Some(m@),
                Err(_) => mac_text(s@) is None,
            },
    {
        MacAddr::from_text(s)
    }
}

impl MacParseError {
    #[must_use]
    pub fn to_string(&self) -> (r: String)
        ensures
            r@ == "invalid MAC address (expected aa:bb:cc:dd:ee:ff)"@,
    {
        let mut out: String = String::new();
        out.append("invalid MAC address (expected aa:bb:cc:dd:ee:ff)");
        assert(out@ =~= "invalid MAC address (expected aa:bb:cc:dd:ee:ff)"@);
        out
    }
}

/// The six bytes of `s` from `off` on.
pub open spec fn mac_at(s: Seq<u8>, off: int) -> Seq<u8> {
    s.subrange(off, off + 6)
}

/// Reads the MAC address at `off`.
pub fn get_mac(buf: &[u8], off: usize) -> (r: MacAddr)
    requires
        off + 6 <= buf@.len(),
    ensures
        r@ == mac_at(buf@, off as int),
{
    let m: [u8; 6] = [
        buf[off],
        buf[off + 1],
        buf[off + 2],
        buf[off + 3],
        buf[off + 4],
        buf[off + 5],
    ];
    assert(m@ =~= mac_at(buf@, off as int));
    MacAddr(m)
}

/// Writes `m` at `off`.
pub fn put_mac(buf: &mut [u8], off: usize, m: MacAddr)
    requires
        off + 6 <= old(buf)@.len(),
    ensures
        final(buf)@ == splice(old(buf)@, off as int, m@),
{
    put_bytes(buf, off, &m.0);
}

/// The error for a frame of `got` bytes that is too short for the header.
pub open spec fn eth_too_short(got: nat) -> ParseError {
    ParseError::TooShort { what: "ethernet", need: ETH_HDR_LEN, got: got as usize }
}

/// Read-only view over an Ethernet frame.
#[derive(Clone, Copy)]
pub struct EthFrame<'a> {
    buf: &'a [u8],
}

impl<'a> View for EthFrame<'a> {
    type V = Seq<u8>;

    closed spec fn view(&self) -> Seq<u8> {
        self.buf@
    }
}

impl<'a> EthFrame<'a> {
    #[verifier::type_invariant]
    spec fn holds_header(self) -> bool {
        self.buf@.len() >= ETH_HDR_LEN
    }

    /// Parse the header, validating there is at least a full 14-byte header.
    pub fn parse(buf: &'a [u8]) -> (r: Result<Self, ParseError>)
        ensures
            buf@.len() >= ETH_HDR_LEN ==> (r matches Ok(v) && v@ == buf@),
            buf@.len() < ETH_HDR_LEN ==> r == Err::<Self, ParseError>(eth_too_short(buf@.len())),
    {
        if buf.len() < ETH_HDR_LEN {
            return Err(
                ParseError::TooShort { what: "ethernet", need: ETH_HDR_LEN, got: buf.len() },
            );
        }
        Ok(Self { buf })
    }

    #[must_use]
    pub fn dst(&self) -> (r: MacAddr)
        ensures
            r@ == mac_at(self@, 0),
    {
        proof {
            use_type_invariant(self);
        }
        get_mac(self.buf, 0)
    }

    #[must_use]
    pub fn src(&self) -> (r: MacAddr)
        ensures
            r@ == mac_at(self@, 6),
    {
        proof {
            use_type_invariant(self);
        }
        get_mac(self.buf, 6)
    }

    #[must_use]
    pub fn ethertype(&self) -> (r: u16)
        ensures
            r == be16(self@, 12),
    {
        proof {
            use_type_invariant(self);
        }
        get_be16(self.buf, 12)
    }

    /// The L3 payload (everything after the 14-byte header).
    #[must_use]
    pub fn payload(&self) -> (r: &'a [u8])
        ensures
            r@ == tail(self@, ETH_HDR_LEN as int),
    {
        proof {
            use_type_invariant(self);
        }
        skip(self.buf, ETH_HDR_LEN)
    }

    /// The full frame bytes.
    #[must_use]
    pub fn bytes(&self) -> (r: &'a [u8])
        ensures
            r@ == self@,
    {
        self.buf
    }
}

/// Mutable view — used to rewrite MACs in place (L2 forwarding).
pub struct EthFrameMut<'a> {
    pub buf: &'a mut [u8],
}

impl<'a> View for EthFrameMut<'a> {
    type V = Seq<u8>;

    open spec fn view(&self) -> Seq<u8> {
        self.buf@
    }
}

impl<'a> EthFrameMut<'a> {
    /// The view holds a full header.
    pub open spec fn wf(&self) -> bool {
        self@.len() >= ETH_HDR_LEN
    }

    pub fn parse(buf: &'a mut [u8]) -> (r: Result<Self, ParseError>)
        ensures
            old(buf)@.len() >= ETH_HDR_LEN ==> (r matches Ok(v) && v.wf() && v@ == old(buf)@
                && final(v.buf)@ == final(buf)@),
            old(buf)@.len() < ETH_HDR_LEN ==> r == Err::<Self, ParseError>(
                eth_too_short(old(buf)@.len()),
            ) && final(buf)@ == old(buf)@,
    {
        if buf.len() < ETH_HDR_LEN {
            return Err(
                ParseError::TooShort { what: "ethernet", need: ETH_HDR_LEN, got: buf.len() },
            );
        }
        Ok(Self { buf })
    }

    pub fn set_dst(&mut self, m: MacAddr)
        requires
            old(self).wf(),
        ensures
            final(self).wf(),
            final(self)@ == splice(old(self)@, 0, m@),
            final(final(self).buf)@ == final(old(self).buf)@,
    {
        put_mac(self.buf, 0, m);
    }

    pub fn set_src(&mut self, m: MacAddr)
        requires
            old(self).wf(),
        ensures
            final(self).wf(),
            final(self)@ == splice(old(self)@, 6, m@),
            final(final(self).buf)@ == final(old(self).buf)@,
    {
        put_mac(self.buf, 6, m);
    }

    pub fn set_ethertype(&mut self, ty: u16)
        requires
            old(self).wf(),
        ensures
            final(self).wf(),
            final(self)@ == splice(old(self)@, 12, be16_bytes(ty)),
            final(final(self).buf)@ == final(old(self).buf)@,
    {
        put_be16(self.buf, 12, ty);
    }

    /// The L3 payload, to be written through.
    #[must_use]
    pub fn payload_mut(&mut self) -> (r: &mut [u8])
        requires
            old(self).wf(),
        ensures
            r@ == tail(old(self)@, ETH_HDR_LEN as int),
            final(r)@.len() == r@.len() ==> final(self).wf(),
            final(self)@ == old(self)@.subrange(0, ETH_HDR_LEN as int) + final(r)@,
            final(final(self).buf)@ == final(old(self).buf)@,
    {
        let (_, rest) = self.buf.split_at_mut(ETH_HDR_LEN);
        rest
    }
}

/// The 14 header bytes.
pub open spec fn eth_header(dst: Seq<u8>, src: Seq<u8>, ethertype: u16) -> Seq<u8> {
    dst + src + be16_bytes(ethertype)
}

/// Write an Ethernet II header into the first 14 bytes of `buf`.
/// Returns the number of bytes written (`ETH_HDR_LEN`).
pub fn write_header(buf: &mut [u8], dst: MacAddr, src: MacAddr, ethertype: u16) -> (r: usize)
    requires
        old(buf)@.len() >= ETH_HDR_LEN,
    ensures
        r == ETH_HDR_LEN,
        final(buf)@ == splice(old(buf)@, 0, eth_header(dst@, src@, ethertype)),
{
    put_mac(buf, 0, dst);
    put_mac(buf, 6, src);
    put_be16(buf, 12, ethertype);
    assert(buf@ =~= splice(old(buf)@, 0, eth_header(dst@, src@, ethertype)));
    ETH_HDR_LEN
}

impl Default for MacAddr {
    fn default() -> (r: Self)
        ensures
            r@ == seq![0u8, 0u8, 0u8, 0u8, 0u8, 0u8],
    {
        MacAddr::zero()
    }
}

/// **A MAC address reads back from its text form.**
pub proof fn law_mac_text_round_trip(o: Seq<u8>)
    requires
        o.len() == 6,
    ensures
        mac_text(mac_form(o)) == Some(o),
{
    reveal_strlit(":");
    lemma_hex2_reads_back(o[0]);
    lemma_hex2_reads_back(o[1]);
    lemma_hex2_reads_back(o[2]);
    lemma_hex2_reads_back(o[3]);
    lemma_hex2_reads_back(o[4]);
    lemma_hex2_reads_back(o[5]);
    let s0 = hex2(o[0]);
    let s1 = s0.push(':') + hex2(o[1]);
    let s2 = s1.push(':') + hex2(o[2]);
    let s3 = s2.push(':') + hex2(o[3]);
    let s4 = s3.push(':') + hex2(o[4]);
    let s5 = s4.push(':') + hex2(o[5]);
    assert(mac_form(o) =~= s5);
    lemma_fields_single(s0, ':', '-');
    lemma_fields_append(s0, hex2(o[1]), ':', '-');
    lemma_fields_append(s1, hex2(o[2]), ':', '-');
    lemma_fields_append(s2, hex2(o[3]), ':', '-');
    lemma_fields_append(s3, hex2(o[4]), ':', '-');
    lemma_fields_append(s4, hex2(o[5]), ':', '-');
    let f = fields(s5, ':', '-');
    assert forall|k: int| 0 <= k < 6 implies u8_text(#[trigger] f[k], 16) == Some(o[k]) by {
        assert(f[k] == hex2(o[k]));
    }
    assert(mac_text(s5).unwrap() =~= o);
}

/// **A header that was just written reads back**, and what follows it is untouched.
pub proof fn law_written_eth_header_reads_back(s: Seq<u8>, dst: Seq<u8>, src: Seq<u8>, ty: u16)
    requires
        s.len() >= ETH_HDR_LEN,
        dst.len() == 6,
        src.len() == 6,
    ensures
        ({
            let t = splice(s, 0, eth_header(dst, src, ty));
            &&& t.len() == s.len()
            &&& mac_at(t, 0) == dst
            &&& mac_at(t, 6) == src
            &&& be16(t, 12) == ty
            &&& tail(t, ETH_HDR_LEN as int) == tail(s, ETH_HDR_LEN as int)
        }),
{
    let t = splice(s, 0, eth_header(dst, src, ty));
    assert(mac_at(t, 0) =~= dst);
    assert(mac_at(t, 6) =~= src);
    lemma_be16_read(t, 12, ty);
    assert(tail(t, ETH_HDR_LEN as int) =~= tail(s, ETH_HDR_LEN as int));
}

} // verus!
