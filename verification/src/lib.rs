//! Light-Andromeda: a user-space overlay dataplane.
//!
//! * Wire formats: [`ethernet`], [`arp`], [`ipv4`], [`udp`], [`tcp`] and the
//!   [`overlay`] encapsulation, as views over borrowed byte slices, with the
//!   incremental [`checksum`] arithmetic that in-place rewrites rest on.
//! * [`translate`]: stateful address translation.
//! * [`control`] and [`config`]: the fabric map and its declarative form.
//! * [`pipeline`]: the per-packet forwarding decisions.
//! * [`afxdp`]: frame accounting and the decisions of the forwarding loops.
//! * [`cli`]: the command line.

use vstd::prelude::*;
use crate::addr::{dotted, Ipv4Addr};
use crate::ipv4::{addr_at, ihl_of, ipv4_error, Ipv4View};
use crate::tcp::{tcp_error, TcpView};
use crate::text::{decimal, push_decimal};
use crate::udp::{UdpView, UDP_HDR_LEN};
use crate::wire::{be16, be32_bytes, tail};

pub mod addr;
pub mod afxdp;
pub mod arp;
pub mod checksum;
pub mod cli;
pub mod config;
pub mod control;
pub mod ethernet;
pub mod ipv4;
pub mod laws;
pub mod overlay;
pub mod pipeline;
pub mod tcp;
pub mod text;
pub mod translate;
pub mod udp;
pub mod wire;

verus! {

/// Errors from parsing/validating on-wire structures.
#[derive(Debug, Clone, PartialEq, Eq)]
pub enum ParseError {
    /// Buffer shorter than the minimum header size.
    TooShort { what: &'static str, need: usize, got: usize },
    /// Version nibble did not match the expected protocol version.
    BadVersion { what: &'static str, version: u8 },
    /// A declared header length was nonsensical (too small or past the buffer).
    BadHeaderLen { what: &'static str, len: usize },
    /// An output buffer was too small to build the requested packet.
    BufferTooSmall { need: usize, got: usize },
}

impl ParseError {
    /// What [`ParseError::to_string`] writes.
    pub open spec fn text(self) -> Seq<char> {
        match self {
            ParseError::TooShort { what, need, got } => what@ + ": buffer too short (need "@ + decimal(
                need as nat,
            ) + ", got "@ + decimal(got as nat) + ")"@,
            ParseError::BadVersion { what, version } => what@ + ": unexpected version "@ + decimal(
                version as nat,
            ),
            ParseError::BadHeaderLen { what, len } => what@ + ": invalid header length "@ + decimal(
                len as nat,
            ),
            ParseError::BufferTooSmall { need, got } => "output buffer too small (need "@ + decimal(
                need as nat,
            ) + ", got "@ + decimal(got as nat) + ")"@,
        }
    }

    #[must_use]
    pub fn to_string(&self) -> (r: String)
        ensures
            r@ == self.text(),
    {
        let mut out: String = String::new();
        match self {
            ParseError::TooShort { what, need, got } => {
                out.append(what);
                out.append(": buffer too short (need ");
                push_decimal(&mut out, *need as u64);
                out.append(", got ");
                push_decimal(&mut out, *got as u64);
                out.append(")");
            },
            ParseError::BadVersion { what, version } => {
                out.append(what);
                out.append(": unexpected version ");
                push_decimal(&mut out, *version as u64);
            },
            ParseError::BadHeaderLen { what, len } => {
                out.append(what);
                out.append(": invalid header length ");
                push_decimal(&mut out, *len as u64);
            },
            ParseError::BufferTooSmall { need, got } => {
                out.append("output buffer too small (need ");
                push_decimal(&mut out, *need as u64);
                out.append(", got ");
                push_decimal(&mut out, *got as u64);
                out.append(")");
            },
        }
        assert(out@ =~= self.text());
        out
    }
}

/// The canonical connection key: source/dest IP + L4 protocol + source/dest port.
/// Used by NAT conntrack and as the load-balancing hash input.
#[derive(Clone, Copy, Debug, PartialEq, Eq, Hash, Structural)]
pub struct FiveTuple {
    pub src_ip: Ipv4Addr,
    pub dst_ip: Ipv4Addr,
    pub protocol: u8,
    pub src_port: u16,
    pub dst_port: u16,
}

impl FiveTuple {
    /// The tuple of the opposite direction.
    pub open spec fn swapped(self) -> FiveTuple {
        FiveTuple {
            src_ip: self.dst_ip,
            dst_ip: self.src_ip,
            protocol: self.protocol,
            src_port: self.dst_port,
            dst_port: self.src_port,
        }
    }

    /// What [`FiveTuple::to_string`] writes.
    pub open spec fn text(self) -> Seq<char> {
        dotted(be32_bytes(self.src_ip.bits)) + ":"@ + decimal(self.src_port as nat) + " -> "@ + dotted(
            be32_bytes(self.dst_ip.bits),
        ) + ":"@ + decimal(self.dst_port as nat) + " proto="@ + decimal(self.protocol as nat)
    }

    /// Reverse direction: swap src/dst. Used to match reply packets to a conntrack entry.
    #[must_use]
    pub fn reversed(&self) -> (r: Self)
        ensures
            r == self.swapped(),
    {
        FiveTuple {
            src_ip: self.dst_ip,
            dst_ip: self.src_ip,
            protocol: self.protocol,
            src_port: self.dst_port,
            dst_port: self.src_port,
        }
    }

    #[must_use]
    pub fn to_string(&self) -> (r: String)
        ensures
            r@ == self.text(),
    {
        let mut out: String = String::new();
        self.src_ip.push_to(&mut out);
        out.append(":");
        push_decimal(&mut out, self.src_port as u64);
        out.append(" -> ");
        self.dst_ip.push_to(&mut out);
        out.append(":");
        push_decimal(&mut out, self.dst_port as u64);
        out.append(" proto=");
        push_decimal(&mut out, self.protocol as u64);
        assert(out@ =~= self.text());
        out
    }
}

/// **Reversing twice gives the tuple back.**
pub proof fn law_reversed_twice(t: FiveTuple)
    ensures
        t.swapped().swapped() == t,
{
}

/// The L4 part of the IPv4 packet `s`.
pub open spec fn l4_of(s: Seq<u8>) -> Seq<u8> {
    tail(s, ihl_of(s) as int)
}

/// Whether the packet `s`, which starts at its IPv4 header, carries ports: it
/// parses, and so does the TCP segment or UDP datagram in it.
pub open spec fn has_ports(s: Seq<u8>) -> bool {
    &&& ipv4_error(s) is None
    &&& (s[9] == ipv4::proto::TCP && tcp_error(l4_of(s)) is None) || (s[9] == ipv4::proto::UDP
        && l4_of(s).len() >= UDP_HDR_LEN)
}

/// The connection key of the packet `s`.
pub open spec fn tuple_of(s: Seq<u8>) -> Option<FiveTuple> {
    if has_ports(s) {
        Some(
            FiveTuple {
                src_ip: addr_at(s, 12),
                dst_ip: addr_at(s, 16),
                protocol: s[9],
                src_port: be16(l4_of(s), 0),
                dst_port: be16(l4_of(s), 2),
            },
        )
    } else {
        None
    }
}

/// Parse an inner IPv4 packet's 5-tuple, if it is TCP or UDP. Returns `None` for
/// other protocols (ICMP, etc.) where ports are meaningless.
///
/// `ipv4_packet` must start at the IPv4 header.
#[must_use]
pub fn five_tuple_of(ipv4_packet: &[u8]) -> (r: Option<FiveTuple>)
    ensures
        r == tuple_of(ipv4_packet@),
{
    let ip: Ipv4View = match Ipv4View::parse(ipv4_packet) {
        Ok(ip) => ip,
        Err(_) => {
            return None;
        },
    };
    let protocol: u8 = ip.protocol();
    let (src_port, dst_port): (u16, u16) = if protocol == ipv4::proto::TCP {
        match TcpView::parse(ip.payload()) {
            Ok(t) => (t.src_port(), t.dst_port()),
            Err(_) => {
                return None;
            },
        }
    } else if protocol == ipv4::proto::UDP {
        match UdpView::parse(ip.payload()) {
            Ok(u) => (u.src_port(), u.dst_port()),
            Err(_) => {
                return None;
            },
        }
    } else {
        return None;
    };
    Some(FiveTuple { src_ip: ip.src(), dst_ip: ip.dst(), protocol, src_port, dst_port })
}

} // verus!
