//! How numbers and addresses are written, and which texts are read.

use vstd::prelude::*;
use crate::addr::{dotted, ipv4_text, lemma_octet_reads_back, octet_text, Ipv4Addr};
use crate::ethernet::{broadcast_octets, mac_form, mac_text};
use crate::text::{
    decimal, digit_char, digit_value, digits_value, fields, hex2, hex4, is_digit,
    lemma_decimal_reads_back, lemma_fields_append, lemma_fields_single, u8_text, uint_text,
    unbroken, unsigned_part,
};
use crate::wire::{be32_bytes, lemma_be32_bytes_of};
use crate::{FiveTuple, ParseError};

verus! {

broadcast use crate::wire::group_field_lengths;

/// **Digits are written in lower case and read in either case**: the ten figures and six
/// letters, and nothing else, are the digits of a hexadecimal number.
pub proof fn law_digits(d: nat, c: char)
    requires
        d < 16,
    ensures
        digit_char(d) == "0123456789abcdef"@[d as int],
        digit_value("0123456789abcdef"@[d as int]) == Some(d),
        digit_value("0123456789ABCDEF"@[d as int]) == Some(d),
        is_digit(c, 16) <==> "0123456789abcdef"@.contains(c) || "0123456789ABCDEF"@.contains(c),
        is_digit(c, 10) <==> "0123456789"@.contains(c),
{
    reveal_strlit("0123456789abcdef");
    reveal_strlit("0123456789ABCDEF");
    reveal_strlit("0123456789");
    let (lower, upper, ten) = ("0123456789abcdef"@, "0123456789ABCDEF"@, "0123456789"@);
    if is_digit(c, 16) {
        let v = digit_value(c).unwrap();
        assert(c == lower[v as int] || c == upper[v as int]);
    }
    if is_digit(c, 10) {
        assert(c == ten[digit_value(c).unwrap() as int]);
    }
    if lower.contains(c) {
        let i = choose|i: int| 0 <= i < lower.len() && lower[i] == c;
        assert(digit_value(lower[i]) == Some(i as nat));
    }
    if upper.contains(c) {
        let i = choose|i: int| 0 <= i < upper.len() && upper[i] == c;
        assert(digit_value(upper[i]) == Some(i as nat));
    }
    if ten.contains(c) {
        let i = choose|i: int| 0 <= i < ten.len() && ten[i] == c;
        assert(digit_value(ten[i]) == Some(i as nat));
    }
}

/// **A digit more makes a number `radix` times as large, plus the digit.**
pub proof fn law_places(s: Seq<char>, c: char, radix: nat)
    requires
        is_digit(c, radix),
    ensures
        digits_value(Seq::empty(), radix) == 0,
        digits_value(s.push(c), radix) == digits_value(s, radix) * radix + digit_value(c).unwrap(),
{
    assert(s.push(c).drop_last() =~= s);
}

/// Whether `s` is one or more digits.
pub open spec fn is_number(s: Seq<char>, radix: nat) -> bool {
    s.len() > 0 && forall|i: int| 0 <= i < s.len() ==> is_digit(#[trigger] s[i], radix)
}

/// **A number is read if and only if it is digits, perhaps after a plus sign**, at least one
/// of them, and not too large; and then it is the number that they write.
pub proof fn law_numbers(s: Seq<char>, radix: nat, max: nat)
    ensures
        ({
            let n = digits_value(s, radix);
            let signed = seq!['+'] + s;
            &&& uint_text(signed, radix, max) == if is_number(s, radix) && n <= max {
                Some(n)
            } else {
                None
            }
            &&& s.len() == 0 || s[0] != '+' ==> uint_text(s, radix, max) == uint_text(
                signed,
                radix,
                max,
            )
            &&& u8_text(s, radix) == match uint_text(s, radix, 255) {
                Some(v) => Some(v as u8),
                None => None,
            }
        }),
{
    let signed = seq!['+'] + s;
    assert(signed.skip(1) =~= s);
    assert(unsigned_part(signed) == s);
}

/// **Numbers are written in decimal**, as the digits that read as that number, with no
/// leading zero.
pub proof fn law_decimal(n: nat)
    ensures
        decimal(n).len() > 0,
        forall|i: int| 0 <= i < decimal(n).len() ==> "0123456789"@.contains(#[trigger] decimal(n)[i]),
        decimal(n)[0] == '0' <==> n == 0,
        n == 0 ==> decimal(n).len() == 1,
        digits_value(decimal(n), 10) == n,
{
    lemma_decimal_reads_back(n);
    assert forall|i: int| 0 <= i < decimal(n).len() implies "0123456789"@.contains(
        #[trigger] decimal(n)[i],
    ) by {
        law_digits(0, decimal(n)[i]);
    }
}

/// **There is no other way to write a number without leading zeros.**
pub proof fn law_decimal_is_unique(s: Seq<char>)
    requires
        s.len() > 0,
        forall|i: int| 0 <= i < s.len() ==> is_digit(#[trigger] s[i], 10),
        s.len() == 1 || s[0] != '0',
    ensures
        s == decimal(digits_value(s, 10)),
    decreases s.len(),
{
    let front = s.drop_last();
    assert(is_digit(s[s.len() - 1], 10));
    let d = digit_value(s.last()).unwrap();
    assert(digit_char(d) == s.last());
    if s.len() == 1 {
        reveal_with_fuel(digits_value, 2);
        assert(s =~= decimal(d));
    } else {
        assert forall|i: int| 0 <= i < front.len() implies is_digit(#[trigger] front[i], 10) by {
            assert(is_digit(s[i], 10));
        }
        law_decimal_is_unique(front);
        let v = digits_value(front, 10);
        lemma_decimal_reads_back(v);
        assert(v != 0) by {
            if v == 0 {
                assert(decimal(0) =~= seq!['0']);
                assert(front[0] == '0');
            }
        }
        assert((v * 10 + d) / 10 == v && (v * 10 + d) % 10 == d);
        assert(s =~= decimal(v).push(digit_char(d)));
    }
}

/// **Bytes and words are written as two and four hexadecimal digits.**
pub proof fn law_hexadecimal(b: u8, w: u16)
    ensures
        hex2(b) == seq!["0123456789abcdef"@[(b / 16) as int], "0123456789abcdef"@[(b % 16) as int]],
        hex4(w) == hex2((w / 256) as u8) + hex2((w % 256) as u8),
{
    law_digits((b / 16) as nat, 'x');
    law_digits((b % 16) as nat, 'x');
}

/// The texts `parts`, one behind the other, with the characters `marks` between them.
pub open spec fn joined(parts: Seq<Seq<char>>, marks: Seq<char>) -> Seq<char>
    decreases parts.len(),
{
    if parts.len() <= 1 {
        parts[0]
    } else {
        joined(parts.drop_last(), marks.drop_last()).push(marks.last()) + parts.last()
    }
}

/// Whether `marks` are separators, as many as go between `parts`, none of which holds one.
pub open spec fn separate(parts: Seq<Seq<char>>, marks: Seq<char>, a: char, b: char) -> bool {
    &&& parts.len() == marks.len() + 1
    &&& forall|i: int| 0 <= i < marks.len() ==> #[trigger] marks[i] == a || marks[i] == b
    &&& forall|i: int| 0 <= i < parts.len() ==> unbroken(#[trigger] parts[i], a, b)
}

/// **Splitting a text gives the parts that it was joined from.**
pub proof fn law_splitting(parts: Seq<Seq<char>>, marks: Seq<char>, a: char, b: char)
    requires
        separate(parts, marks, a, b),
    ensures
        fields(joined(parts, marks), a, b) == parts,
    decreases parts.len(),
{
    if parts.len() == 1 {
        lemma_fields_single(parts[0], a, b);
        assert(parts =~= seq![parts[0]]);
    } else {
        let (front, fore) = (parts.drop_last(), marks.drop_last());
        assert(unbroken(parts[parts.len() - 1], a, b));
        assert(marks[marks.len() - 1] == marks.last());
        assert forall|i: int| 0 <= i < front.len() implies unbroken(#[trigger] front[i], a, b) by {
            assert(front[i] == parts[i]);
        }
        assert forall|i: int| 0 <= i < fore.len() implies #[trigger] fore[i] == a || fore[i] == b by {
            assert(fore[i] == marks[i]);
        }
        law_splitting(front, fore, a, b);
        let s = joined(front, fore);
        if marks.last() == a {
            lemma_fields_append(s, parts.last(), a, b);
        } else {
            lemma_swapped_separators(s.push(b) + parts.last(), a, b);
            lemma_swapped_separators(s, a, b);
            lemma_fields_append(s, parts.last(), b, a);
        }
        assert(front.push(parts.last()) =~= parts);
    }
}

proof fn lemma_swapped_separators(s: Seq<char>, a: char, b: char)
    ensures
        fields(s, a, b) == fields(s, b, a),
    decreases s.len(),
{
    if s.len() > 0 {
        lemma_swapped_separators(s.drop_last(), a, b);
    }
}

/// **Every text is joined from its parts**, so that nothing is lost by splitting it.
pub proof fn law_every_text_is_joined(s: Seq<char>, a: char, b: char) -> (marks: Seq<char>)
    ensures
        separate(fields(s, a, b), marks, a, b),
        joined(fields(s, a, b), marks) == s,
    decreases s.len(),
{
    let parts = fields(s, a, b);
    if s.len() == 0 {
        assert(joined(parts, seq![]) =~= s);
        Seq::empty()
    } else {
        let (front, c) = (s.drop_last(), s.last());
        let marks = law_every_text_is_joined(front, a, b);
        let before = fields(front, a, b);
        if c == a || c == b {
            let all = marks.push(c);
            assert(parts.drop_last() =~= before);
            assert(all.drop_last() =~= marks);
            assert(joined(parts, all) =~= s);
            all
        } else {
            let last = before.last().push(c);
            assert(unbroken(before[before.len() - 1], a, b));
            assert(unbroken(last, a, b));
            assert(parts.last() == last);
            if before.len() > 1 {
                assert(parts.drop_last() =~= before.drop_last());
                let head = joined(before.drop_last(), marks.drop_last()).push(marks.last());
                assert(front =~= head + before.last());
                assert(joined(parts, marks) == head + last);
                assert(head + last =~= (head + before.last()).push(c));
                assert(front.push(c) =~= s);
            } else {
                assert(joined(parts, marks) =~= s);
            }
            assert forall|i: int| 0 <= i < parts.len() implies unbroken(
                #[trigger] parts[i],
                a,
                b,
            ) by {
                assert(i < parts.len() - 1 ==> parts[i] == before[i]);
            }
            marks
        }
    }
}

proof fn lemma_octet(s: Seq<char>, b: u8)
    ensures
        octet_text(s) == Some(b) <==> s == decimal(b as nat),
{
    lemma_octet_reads_back(b);
    if octet_text(s) == Some(b) {
        law_decimal_is_unique(s);
    }
}

/// **An address is read if and only if it is four numbers up to 255 between dots**, none
/// with a leading zero; and its octets are those numbers.
pub proof fn law_address_is_read(parts: Seq<Seq<char>>, marks: Seq<char>, o: Seq<u8>)
    requires
        separate(parts, marks, '.', '.'),
        o.len() == 4,
    ensures
        ({
            let read = ipv4_text(joined(parts, marks));
            &&& (read is Some && be32_bytes(read.unwrap().bits) == o) <==> parts == seq![
                decimal(o[0] as nat),
                decimal(o[1] as nat),
                decimal(o[2] as nat),
                decimal(o[3] as nat),
            ]
            &&& read is Some ==> parts.len() == 4
        }),
{
    law_splitting(parts, marks, '.', '.');
    if parts.len() == 4 {
        lemma_octet(parts[0], o[0]);
        lemma_octet(parts[1], o[1]);
        lemma_octet(parts[2], o[2]);
        lemma_octet(parts[3], o[3]);
        let want = seq![
            decimal(o[0] as nat),
            decimal(o[1] as nat),
            decimal(o[2] as nat),
            decimal(o[3] as nat),
        ];
        if let Some(a) = ipv4_text(joined(parts, marks)) {
            let got = seq![
                octet_text(parts[0]).unwrap(),
                octet_text(parts[1]).unwrap(),
                octet_text(parts[2]).unwrap(),
                octet_text(parts[3]).unwrap(),
            ];
            lemma_be32_bytes_of(got, 0);
            assert(got.subrange(0, 4) =~= got);
            if be32_bytes(a.bits) == o {
                assert(parts =~= want);
            }
            if parts == want {
                assert(got =~= o);
            }
        }
    }
}

/// **An address is written as it is read**, in one way only.
pub proof fn law_address_text(s: Seq<char>, a: Ipv4Addr)
    ensures
        ipv4_text(s) == Some(a) <==> s == dotted(be32_bytes(a.bits)),
        ({
            let o = be32_bytes(a.bits);
            dotted(o) == joined(
                seq![
                    decimal(o[0] as nat),
                    decimal(o[1] as nat),
                    decimal(o[2] as nat),
                    decimal(o[3] as nat),
                ],
                seq!['.', '.', '.'],
            )
        }),
{
    reveal_strlit(".");
    let o = be32_bytes(a.bits);
    let want = seq![
        decimal(o[0] as nat),
        decimal(o[1] as nat),
        decimal(o[2] as nat),
        decimal(o[3] as nat),
    ];
    let dots = seq!['.', '.', '.'];
    assert(joined(want, dots) == dotted(o)) by {
        reveal_with_fuel(joined, 4);
        assert(want.drop_last().drop_last() =~= seq![want[0], want[1]]);
        assert(want.drop_last() =~= seq![want[0], want[1], want[2]]);
        assert(seq![want[0], want[1]].drop_last() =~= seq![want[0]]);
        assert(dots.drop_last() =~= seq!['.', '.']);
        assert(dots.drop_last().drop_last() =~= seq!['.']);
        let s1 = want[0].push('.') + want[1];
        assert(joined(seq![want[0], want[1]], seq!['.']) =~= s1);
        assert(joined(want.drop_last(), dots.drop_last()) =~= s1.push('.') + want[2]);
        assert(joined(want, dots) =~= dotted(o));
    }
    crate::addr::law_ipv4_text_round_trip(a);
    if ipv4_text(s) == Some(a) {
        let parts = fields(s, '.', '.');
        let marks = law_every_text_is_joined(s, '.', '.');
        law_address_is_read(parts, marks, o);
        assert(marks =~= dots);
    }
}

/// **A MAC address is read if and only if it is six hexadecimal bytes between colons or
/// dashes**; and its octets are those bytes.
pub proof fn law_mac_is_read(parts: Seq<Seq<char>>, marks: Seq<char>)
    requires
        separate(parts, marks, ':', '-'),
    ensures
        ({
            let read = mac_text(joined(parts, marks));
            &&& read is Some <==> parts.len() == 6 && forall|k: int|
                0 <= k < 6 ==> u8_text(#[trigger] parts[k], 16) is Some
            &&& read matches Some(o) ==> o.len() == 6 && forall|k: int|
                0 <= k < 6 ==> Some(#[trigger] o[k]) == u8_text(parts[k], 16)
        }),
{
    law_splitting(parts, marks, ':', '-');
}

/// **A MAC address is written as six bytes between colons.**
pub proof fn law_mac_form(o: Seq<u8>)
    requires
        o.len() == 6,
    ensures
        mac_form(o).len() == 17,
        forall|k: int|
            0 <= k < 6 ==> mac_form(o).subrange(3 * k, 3 * k + 2) == hex2(#[trigger] o[k]),
        forall|k: int| 0 <= k < 5 ==> #[trigger] mac_form(o)[3 * k + 2] == ':',
        broadcast_octets().len() == 6,
        forall|k: int| 0 <= k < 6 ==> #[trigger] broadcast_octets()[k] == 255,
{
    reveal_strlit(":");
    let s = mac_form(o);
    assert forall|k: int| 0 <= k < 6 implies s.subrange(3 * k, 3 * k + 2) == hex2(
        #[trigger] o[k],
    ) by {
        assert(s.subrange(3 * k, 3 * k + 2) =~= hex2(o[k]));
    }
}

/// **A flow is written as source, destination and protocol.**
pub proof fn law_flow_text(t: FiveTuple)
    ensures
        t.text() == dotted(be32_bytes(t.src_ip.bits)) + ":"@ + decimal(t.src_port as nat)
            + " -> "@ + dotted(be32_bytes(t.dst_ip.bits)) + ":"@ + decimal(t.dst_port as nat)
            + " proto="@ + decimal(t.protocol as nat),
{
}

/// **An error says what it is about and the numbers that it holds.**
pub proof fn law_error_text(what: &'static str, a: usize, b: usize, v: u8)
    ensures
        (ParseError::TooShort { what, need: a, got: b }).text() == what@
            + ": buffer too short (need "@ + decimal(a as nat) + ", got "@ + decimal(b as nat)
            + ")"@,
        (ParseError::BadVersion { what, version: v }).text() == what@ + ": unexpected version "@
            + decimal(v as nat),
        (ParseError::BadHeaderLen { what, len: a }).text() == what@ + ": invalid header length "@
            + decimal(a as nat),
        (ParseError::BufferTooSmall { need: a, got: b }).text()
            == "output buffer too small (need "@ + decimal(a as nat) + ", got "@ + decimal(
            b as nat,
        ) + ")"@,
{
}

} // verus!
