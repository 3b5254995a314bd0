//! IPv4 addresses.

use vstd::prelude::*;
use crate::text::{
    chars_of, decimal, fields, is_digit, lemma_decimal_reads_back, lemma_fields_append,
    lemma_fields_single, parse_u8, push_decimal, split_fields, u8_text, unbroken,
};
use crate::wire::{be32, be32_bytes, lemma_be32_read};

verus! {

/// An IPv4 address, held as the 32-bit number that its four octets write.
#[derive(Clone, Copy, Debug, PartialEq, Eq, PartialOrd, Ord, Hash, Structural)]
pub struct Ipv4Addr {
    pub bits: u32,
}

/// Error returned when an address string is malformed.
#[derive(Clone, Copy, Debug, PartialEq, Eq)]
pub struct AddrParseError;

/// The octet that `s` writes: one to three decimal digits, at most 255, with no
/// leading zero.
pub open spec fn octet_text(s: Seq<char>) -> Option<u8> {
    if 1 <= s.len() <= 3 && (s.len() == 1 || s[0] != '0') && s[0] != '+' {
        u8_text(s, 10)
    } else {
        None
    }
}

/// The address that `s` writes: four octets separated by dots.
pub open spec fn ipv4_text(s: Seq<char>) -> Option<Ipv4Addr> {
    let f = fields(s, '.', '.');
    if f.len() == 4 && octet_text(f[0]) is Some && octet_text(f[1]) is Some && octet_text(f[2]) is Some
        && octet_text(f[3]) is Some {
        Some(
            Ipv4Addr {
                bits: be32(
                    seq![
                        octet_text(f[0]).unwrap(),
                        octet_text(f[1]).unwrap(),
                        octet_text(f[2]).unwrap(),
                        octet_text(f[3]).unwrap(),
                    ],
                    0,
                ),
            },
        )
    } else {
        None
    }
}

/// The dotted-decimal form of the address whose four octets are `o`.
pub open spec fn dotted(o: Seq<u8>) -> Seq<char> {
    decimal(o[0] as nat) + "."@ + decimal(o[1] as nat) + "."@ + decimal(o[2] as nat) + "."@
        + decimal(o[3] as nat)
}

fn parse_octet(s: &[char]) -> (r: Option<u8>)
    ensures
        r == octet_text(s@),
{
    let n: usize = s.len();
    if n == 0 || n > 3 || s[0] == '+' || (n > 1 && s[0] == '0') {
        return None;
    }
    parse_u8(s, 10)
}

impl Ipv4Addr {
    /// The address `a.b.c.d`.
    #[must_use]
    pub fn new(a: u8, b: u8, c: u8, d: u8) -> (r: Ipv4Addr)
        ensures
            r.bits == be32(seq![a, b, c, d], 0),
    {
        Ipv4Addr {
            bits: a as u32 * 0x100_0000 + b as u32 * 0x1_0000 + c as u32 * 0x100 + d as u32,
        }
    }

    /// The four octets, first octet first.
    #[must_use]
    pub fn octets(&self) -> (r: [u8; 4])
        ensures
            r@ == be32_bytes(self.bits),
    {
        let r: [u8; 4] = [
            (self.bits / 0x100_0000) as u8,
            ((self.bits / 0x1_0000) % 256) as u8,
            ((self.bits / 0x100) % 256) as u8,
            (self.bits % 256) as u8,
        ];
        proof {
            reveal(be32_bytes);
        }
        assert(r@ =~= be32_bytes(self.bits));
        r
    }

    /// Reads an address in dotted-decimal form.
    pub fn from_text(s: &str) -> (r: Result<Ipv4Addr, AddrParseError>)
        ensures
            match r {
                Ok(a) => ipv4_text(s@) == Some(a),
                Err(_) => ipv4_text(s@) is None,
            },
    {
        let chars: Vec<char> = chars_of(s);
        let f: Vec<Vec<char>> = split_fields(chars.as_slice(), '.', '.');
        if f.len() != 4 {
            return Err(AddrParseError);
        }
        let a: Option<u8> = parse_octet(f[0].as_slice());
        let b: Option<u8> = parse_octet(f[1].as_slice());
        let c: Option<u8> = parse_octet(f[2].as_slice());
        let d: Option<u8> = parse_octet(f[3].as_slice());
        match (a, b, c, d) {
            (Some(a), Some(b), Some(c), Some(d)) => Ok(Ipv4Addr::new(a, b, c, d)),
            _ => Err(AddrParseError),
        }
    }

    /// Appends the dotted-decimal form of the address.
    pub fn push_to(&self, out: &mut String)
        ensures
            final(out)@ == old(out)@ + dotted(be32_bytes(self.bits)),
    {
        let o: [u8; 4] = self.octets();
        push_decimal(out, o[0] as u64);
        out.append(".");
        push_decimal(out, o[1] as u64);
        out.append(".");
        push_decimal(out, o[2] as u64);
        out.append(".");
        push_decimal(out, o[3] as u64);
        assert(out@ =~= old(out)@ + dotted(be32_bytes(self.bits)));
    }

    /// The dotted-decimal form of the address.
    #[must_use]
    pub fn to_string(&self) -> (r: String)
        ensures
            r@ == dotted(be32_bytes(self.bits)),
    {
        let mut out: String = String::new();
        self.push_to(&mut out);
        assert(out@ =~= dotted(be32_bytes(self.bits)));
        out
    }
}

impl core::str::FromStr for Ipv4Addr {
    type Err = AddrParseError;

    fn from_str(s: &str) -> (r: Result<Self, Self::Err>)
        ensures
            match r {
                Ok(a) => ipv4_text(s@) == Some(a),
                Err(_) => ipv4_text(s@) is None,
            },
    {
        Ipv4Addr::from_text(s)
    }
}

/// An octet reads back from its decimal form.
pub proof fn lemma_octet_reads_back(b: u8)
    ensures
        octet_text(decimal(b as nat)) == Some(b),
        unbroken(decimal(b as nat), '.', '.'),
{
    let s = decimal(b as nat);
    lemma_decimal_reads_back(b as nat);
    assert(is_digit(s[0], 10));
    assert forall|i: int| 0 <= i < s.len() implies #[trigger] s[i] != '.' by {
        assert(is_digit(s[i], 10));
    }
}

/// **An IPv4 address reads back from its text form.**
pub proof fn law_ipv4_text_round_trip(a: Ipv4Addr)
    ensures
        ipv4_text(dotted(be32_bytes(a.bits))) == Some(a),
{
    reveal_strlit(".");
    let o = be32_bytes(a.bits);
    lemma_octet_reads_back(o[0]);
    lemma_octet_reads_back(o[1]);
    lemma_octet_reads_back(o[2]);
    lemma_octet_reads_back(o[3]);
    let s0 = decimal(o[0] as nat);
    let s1 = s0.push('.') + decimal(o[1] as nat);
    let s2 = s1.push('.') + decimal(o[2] as nat);
    let s3 = s2.push('.') + decimal(o[3] as nat);
    assert(dotted(o) =~= s3);
    lemma_fields_single(s0, '.', '.');
    lemma_fields_append(s0, decimal(o[1] as nat), '.', '.');
    lemma_fields_append(s1, decimal(o[2] as nat), '.', '.');
    lemma_fields_append(s2, decimal(o[3] as nat), '.', '.');
    let f = fields(s3, '.', '.');
    assert(f =~= seq![
        decimal(o[0] as nat),
        decimal(o[1] as nat),
        decimal(o[2] as nat),
        decimal(o[3] as nat),
    ]);
    lemma_be32_read(seq![o[0], o[1], o[2], o[3]], 0, a.bits);
}

} // verus!
