//! Minimal ARP (for IPv4-over-Ethernet) parsing and reply generation.
//!
//! The switch runs a *proxy ARP* responder on the tenant port: when a tenant asks
//! "who has 10.0.0.20?", the switch answers with a single virtual gateway MAC. The
//! tenant then sends its frames to that MAC, and the switch rewrites the inner
//! destination MAC to the real endpoint during encapsulation.

use vstd::prelude::*;
use crate::addr::Ipv4Addr;
use crate::ethernet;
use crate::ethernet::{eth_header, ethertype, get_mac, mac_at, put_mac, MacAddr, ETH_HDR_LEN};
use crate::ipv4::addr_at;
use crate::wire::{
    be16, be16_bytes, be32, be32_bytes, get_be16, get_be32, put_be16, put_be32, splice, tail,
    lemma_be16_read, lemma_be32_read,
};
use crate::ParseError;

pub mod oper;

verus! {

broadcast use crate::wire::group_field_lengths;

/// Length of an Ethernet+IPv4 ARP payload (after the 14-byte Ethernet header).
pub const ARP_LEN: usize = 28;

/// Full frame length of an Ethernet ARP (header + payload).
pub const ARP_FRAME_LEN: usize = ETH_HDR_LEN + ARP_LEN;

/// Why `s` is not an Ethernet/IPv4 ARP payload (hardware type 1, protocol type
/// 0x0800, address lengths 6 and 4); `None` if it is one.
pub open spec fn arp_error(s: Seq<u8>) -> Option<ParseError> {
    if s.len() < ARP_LEN {
        Some(ParseError::TooShort { what: "arp", need: ARP_LEN, got: s.len() as usize })
    } else if be16(s, 0) != 1 || be16(s, 2) != ethertype::IPV4 || s[4] != 6 || s[5] != 4 {
        Some(ParseError::BadHeaderLen { what: "arp", len: s.len() as usize })
    } else {
        None
    }
}

/// A parsed ARP payload (the 28 bytes after the Ethernet header).
#[derive(Clone, Copy)]
pub struct ArpView<'a> {
    buf: &'a [u8],
}

impl<'a> View for ArpView<'a> {
    type V = Seq<u8>;

    closed spec fn view(&self) -> Seq<u8> {
        self.buf@
    }
}

impl<'a> ArpView<'a> {
    #[verifier::type_invariant]
    spec fn parsed(self) -> bool {
        arp_error(self.buf@) is None
    }

    /// Parse the ARP payload. Only Ethernet/IPv4 ARP (htype=1, ptype=0x0800) is accepted.
    pub fn parse(buf: &'a [u8]) -> (r: Result<Self, ParseError>)
        ensures
            match arp_error(buf@) {
                None => r matches Ok(v) && v@ == buf@,
                Some(e) => r == Err::<Self, ParseError>(e),
            },
    {
        if buf.len() < ARP_LEN {
            return Err(ParseError::TooShort { what: "arp", need: ARP_LEN, got: buf.len() });
        }
        let htype: u16 = get_be16(buf, 0);
        let ptype: u16 = get_be16(buf, 2);
        if htype != 1 || ptype != ethertype::IPV4 || buf[4] != 6 || buf[5] != 4 {
            return Err(ParseError::BadHeaderLen { what: "arp", len: buf.len() });
        }
        Ok(Self { buf })
    }

    #[must_use]
    pub fn oper(&self) -> (r: u16)
        ensures
            r == be16(self@, 6),
    {
        proof {
            use_type_invariant(self);
        }
        get_be16(self.buf, 6)
    }

    #[must_use]
    pub fn is_request(&self) -> (r: bool)
        ensures
            r == (be16(self@, 6) == oper::REQUEST),
    {
        self.oper() == oper::REQUEST
    }

    #[must_use]
    pub fn sender_mac(&self) -> (r: MacAddr)
        ensures
            r@ == mac_at(self@, 8),
    {
        proof {
            use_type_invariant(self);
        }
        get_mac(self.buf, 8)
    }

    #[must_use]
    pub fn sender_ip(&self) -> (r: Ipv4Addr)
        ensures
            r == addr_at(self@, 14),
    {
        proof {
            use_type_invariant(self);
        }
        Ipv4Addr { bits: get_be32(self.buf, 14) }
    }

    #[must_use]
    pub fn target_ip(&self) -> (r: Ipv4Addr)
        ensures
            r == addr_at(self@, 24),
    {
        proof {
            use_type_invariant(self);
        }
        Ipv4Addr { bits: get_be32(self.buf, 24) }
    }
}

/// The reply frame to the request payload `req`: addressed to the requester, it
/// says that the address asked for is at `answer`.
#[verifier::opaque]
pub open spec fn reply_frame(req: Seq<u8>, answer: Seq<u8>) -> Seq<u8> {
    eth_header(mac_at(req, 8), answer, ethertype::ARP) + be16_bytes(1) + be16_bytes(ethertype::IPV4)
        + seq![6u8, 4u8] + be16_bytes(oper::REPLY) + answer + be32_bytes(be32(req, 24)) + mac_at(
        req,
        8,
    ) + be32_bytes(be32(req, 14))
}

/// Build a full Ethernet ARP *reply* into `out`, answering `request_payload` with
/// `answer_mac` as the hardware address of the requested target IP.
///
/// Returns the number of bytes written (`ARP_FRAME_LEN`), or an error if `out` is
/// too small. `request_payload` is the 28-byte ARP payload of the incoming request.
pub fn write_reply(out: &mut [u8], request_payload: &[u8], answer_mac: MacAddr) -> (r: Result<
    usize,
    ParseError,
>)
    ensures
        old(out)@.len() < ARP_FRAME_LEN ==> r == Err::<usize, ParseError>(
            ParseError::BufferTooSmall { need: ARP_FRAME_LEN, got: old(out)@.len() as usize },
        ) && final(out)@ == old(out)@,
        old(out)@.len() >= ARP_FRAME_LEN ==> match arp_error(request_payload@) {
            Some(e) => r == Err::<usize, ParseError>(e) && final(out)@ == old(out)@,
            None => r == Ok::<usize, ParseError>(ARP_FRAME_LEN) && final(out)@ == splice(
                old(out)@,
                0,
                reply_frame(request_payload@, answer_mac@),
            ),
        },
{
    if out.len() < ARP_FRAME_LEN {
        return Err(ParseError::BufferTooSmall { need: ARP_FRAME_LEN, got: out.len() });
    }
    let req: ArpView = match ArpView::parse(request_payload) {
        Ok(v) => v,
        Err(e) => {
            return Err(e);
        },
    };
    let requester_mac: MacAddr = req.sender_mac();
    let requester_ip: Ipv4Addr = req.sender_ip();
    let asked_ip: Ipv4Addr = req.target_ip();

    // Ethernet: to the requester, from the virtual gateway.
    ethernet::write_header(out, requester_mac, answer_mac, ethertype::ARP);

    // ARP payload.
    put_be16(out, 14, 1);  // htype Ethernet
    put_be16(out, 16, ethertype::IPV4);
    out[18] = 6;  // hlen
    out[19] = 4;  // plen
    put_be16(out, 20, oper::REPLY);
    put_mac(out, 22, answer_mac);  // sender HW = gateway
    put_be32(out, 28, asked_ip.bits);  // sender IP = the IP asked about
    put_mac(out, 32, requester_mac);  // target HW = requester
    put_be32(out, 38, requester_ip.bits);  // target IP = requester
    proof {
        reveal(reply_frame);
    }
    assert(out@ =~= splice(old(out)@, 0, reply_frame(request_payload@, answer_mac@)));
    Ok(ARP_FRAME_LEN)
}

/// **A reply answers its request.** The reply frame goes back to the requester, and
/// its payload is an ARP reply that gives `answer` for the address asked about.
pub proof fn law_reply_answers_request(req: Seq<u8>, answer: Seq<u8>)
    requires
        arp_error(req) is None,
        answer.len() == 6,
    ensures
        ({
            let f = reply_frame(req, answer);
            let p = tail(f, ETH_HDR_LEN as int);
            &&& f.len() == ARP_FRAME_LEN
            &&& mac_at(f, 0) == mac_at(req, 8)
            &&& mac_at(f, 6) == answer
            &&& be16(f, 12) == ethertype::ARP
            &&& arp_error(p) is None
            &&& be16(p, 6) == oper::REPLY
            &&& mac_at(p, 8) == answer
            &&& addr_at(p, 14) == addr_at(req, 24)
            &&& addr_at(p, 24) == addr_at(req, 14)
        }),
{
    reveal(reply_frame);
    let f = reply_frame(req, answer);
    let p = tail(f, ETH_HDR_LEN as int);
    assert(mac_at(f, 0) =~= mac_at(req, 8));
    assert(mac_at(f, 6) =~= answer);
    assert(mac_at(p, 8) =~= answer);
    lemma_be16_read(f, 12, ethertype::ARP);
    lemma_be16_read(p, 0, 1);
    lemma_be16_read(p, 2, ethertype::IPV4);
    lemma_be16_read(p, 6, oper::REPLY);
    lemma_be32_read(p, 14, be32(req, 24));
    lemma_be32_read(p, 24, be32(req, 14));
}

} // verus!
