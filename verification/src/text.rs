//! Text: rendering numbers, splitting fields, reading numbers back.

use vstd::prelude::*;

verus! {

/// The digit `d` of a number written in a base up to sixteen, in lower case.
pub open spec fn digit_char(d: nat) -> char {
    if d < 10 {
        ('0' as nat + d) as char
    } else {
        (('a' as nat + d) - 10) as char
    }
}

/// `n` in decimal.
pub open spec fn decimal(n: nat) -> Seq<char>
    decreases n,
{
    if n < 10 {
        seq![digit_char(n)]
    } else {
        decimal(n / 10).push(digit_char(n % 10))
    }
}

/// A byte as two lower-case hexadecimal digits.
pub open spec fn hex2(b: u8) -> Seq<char> {
    seq![digit_char((b / 16) as nat), digit_char((b % 16) as nat)]
}

/// A word as four lower-case hexadecimal digits.
pub open spec fn hex4(w: u16) -> Seq<char> {
    hex2((w / 256) as u8) + hex2((w % 256) as u8)
}

/// What digit `c` is, in upper or lower case.
pub open spec fn digit_value(c: char) -> Option<nat> {
    if '0' <= c <= '9' {
        Some((c as nat - '0' as nat) as nat)
    } else if 'a' <= c <= 'z' {
        Some((c as nat - 'a' as nat + 10) as nat)
    } else if 'A' <= c <= 'Z' {
        Some((c as nat - 'A' as nat + 10) as nat)
    } else {
        None
    }
}

/// Whether `c` is a digit in base `radix`.
pub open spec fn is_digit(c: char, radix: nat) -> bool {
    digit_value(c) matches Some(d) && d < radix
}

/// The number that the digits `s` write in base `radix`.
pub open spec fn digits_value(s: Seq<char>, radix: nat) -> nat
    decreases s.len(),
{
    if s.len() == 0 {
        0
    } else {
        digits_value(s.drop_last(), radix) * radix + digit_value(s.last()).unwrap()
    }
}

/// `s` without a leading plus sign.
pub open spec fn unsigned_part(s: Seq<char>) -> Seq<char> {
    if s.len() > 0 && s[0] == '+' {
        s.skip(1)
    } else {
        s
    }
}

/// The number up to `max` that `s` writes in base `radix`: an optional plus sign, then
/// one or more digits.
pub open spec fn uint_text(s: Seq<char>, radix: nat, max: nat) -> Option<nat> {
    let d = unsigned_part(s);
    if d.len() > 0 && (forall|i: int| 0 <= i < d.len() ==> is_digit(#[trigger] d[i], radix))
        && digits_value(d, radix) <= max {
        Some(digits_value(d, radix))
    } else {
        None
    }
}

/// The byte that `s` writes in base `radix`.
pub open spec fn u8_text(s: Seq<char>, radix: nat) -> Option<u8> {
    match uint_text(s, radix, 255) {
        Some(n) => Some(n as u8),
        None => None,
    }
}

/// The fields of `s`, separated by either of the characters `a` and `b`. There is
/// one more field than there are separators.
pub open spec fn fields(s: Seq<char>, a: char, b: char) -> Seq<Seq<char>>
    decreases s.len(),
{
    if s.len() == 0 {
        seq![Seq::<char>::empty()]
    } else {
        let before = fields(s.drop_last(), a, b);
        if s.last() == a || s.last() == b {
            before.push(Seq::<char>::empty())
        } else {
            before.update(before.len() - 1, before.last().push(s.last()))
        }
    }
}

/// Appends the digit `d`.
pub fn push_digit(out: &mut String, d: u8)
    requires
        d < 16,
    ensures
        final(out)@ == old(out)@.push(digit_char(d as nat)),
{
    let t: &str = match d {
        0 => "0",
        1 => "1",
        2 => "2",
        3 => "3",
        4 => "4",
        5 => "5",
        6 => "6",
        7 => "7",
        8 => "8",
        9 => "9",
        10 => "a",
        11 => "b",
        12 => "c",
        13 => "d",
        14 => "e",
        _ => "f",
    };
    proof {
        reveal_strlit("0");
        reveal_strlit("1");
        reveal_strlit("2");
        reveal_strlit("3");
        reveal_strlit("4");
        reveal_strlit("5");
        reveal_strlit("6");
        reveal_strlit("7");
        reveal_strlit("8");
        reveal_strlit("9");
        reveal_strlit("a");
        reveal_strlit("b");
        reveal_strlit("c");
        reveal_strlit("d");
        reveal_strlit("e");
        reveal_strlit("f");
    }
    assert(t@ =~= seq![digit_char(d as nat)]);
    out.append(t);
    assert(out@ =~= old(out)@.push(digit_char(d as nat)));
}

/// Appends `n` in decimal.
pub fn push_decimal(out: &mut String, n: u64)
    ensures
        final(out)@ == old(out)@ + decimal(n as nat),
    decreases n,
{
    if n >= 10 {
        push_decimal(out, n / 10);
    }
    push_digit(out, (n % 10) as u8);
    assert(out@ =~= old(out)@ + decimal(n as nat));
}

/// Appends `b` as two hexadecimal digits.
pub fn push_hex2(out: &mut String, b: u8)
    ensures
        final(out)@ == old(out)@ + hex2(b),
{
    push_digit(out, b / 16);
    push_digit(out, b % 16);
    assert(out@ =~= old(out)@ + hex2(b));
}

/// Appends `w` as four hexadecimal digits.
pub fn push_hex4(out: &mut String, w: u16)
    ensures
        final(out)@ == old(out)@ + hex4(w),
{
    push_hex2(out, (w / 256) as u8);
    push_hex2(out, (w % 256) as u8);
    assert(out@ =~= old(out)@ + hex4(w));
}

/// The characters of `s`.
pub fn chars_of(s: &str) -> (r: Vec<char>)
    ensures
        r@ == s@,
{
    let mut r: Vec<char> = Vec::new();
    for c in it: s.chars()
        invariant
            r@ == s@.subrange(0, it.index()),
            it.seq() == s@,
    {
        r.push(c);
        assert(r@ =~= s@.subrange(0, it.index() + 1));
    }
    assert(r@ =~= s@);
    r
}

proof fn lemma_digits_value_prefix(s: Seq<char>, n: int, radix: nat)
    requires
        0 <= n <= s.len(),
        radix >= 1,
    ensures
        digits_value(s.take(n), radix) <= digits_value(s, radix),
    decreases s.len(),
{
    if n == s.len() {
        assert(s.take(n) =~= s);
    } else {
        let d = s.drop_last();
        lemma_digits_value_prefix(d, n, radix);
        assert(d.take(n) =~= s.take(n));
        assert(digits_value(d, radix) <= digits_value(d, radix) * radix) by (nonlinear_arith)
            requires
                radix >= 1,
        ;
    }
}

/// What digit `c` is, in upper or lower case.
fn digit_of(c: char) -> (r: Option<u8>)
    ensures
        match r {
            Some(d) => digit_value(c) == Some(d as nat),
            None => digit_value(c) is None,
        },
        r matches Some(d) ==> d < 36,
{
    if '0' <= c && c <= '9' {
        Some((c as u32 - '0' as u32) as u8)
    } else if 'a' <= c && c <= 'z' {
        Some((c as u32 - 'a' as u32) as u8 + 10)
    } else if 'A' <= c && c <= 'Z' {
        Some((c as u32 - 'A' as u32) as u8 + 10)
    } else {
        None
    }
}

/// Reads a number up to `max` written in base `radix`, with an optional plus sign in front.
pub fn parse_uint(s: &[char], radix: u8, max: u64) -> (r: Option<u64>)
    requires
        2 <= radix <= 36,
    ensures
        match r {
            Some(n) => uint_text(s@, radix as nat, max as nat) == Some(n as nat),
            None => uint_text(s@, radix as nat, max as nat) is None,
        },
{
    let n: usize = s.len();
    let start: usize = if n > 0 && s[0] == '+' {
        1
    } else {
        0
    };
    let ghost d = unsigned_part(s@);
    assert(d =~= s@.skip(start as int));
    if start == n {
        return None;
    }
    let mut i: usize = start;
    let mut acc: u128 = 0;
    while i < n
        invariant
            n == s@.len(),
            start <= i <= n,
            start < n,
            d == s@.skip(start as int),
            d == unsigned_part(s@),
            2 <= radix <= 36,
            acc <= max,
            acc == digits_value(d.take(i - start), radix as nat),
            forall|j: int| 0 <= j < i - start ==> is_digit(#[trigger] d[j], radix as nat),
        decreases n - i,
    {
        assert(s@[i as int] == d[i - start]);
        let v: u8 = match digit_of(s[i]) {
            Some(v) => v,
            None => {
                return None;
            },
        };
        if v >= radix {
            return None;
        }
        assert(acc * radix <= u64::MAX * 36) by (nonlinear_arith)
            requires
                acc <= u64::MAX,
                radix <= 36,
        ;
        assert(d.take(i - start + 1).drop_last() =~= d.take(i - start));
        acc = acc * radix as u128 + v as u128;
        i = i + 1;
        assert(acc == digits_value(d.take(i - start), radix as nat));
        if acc > max as u128 {
            proof {
                lemma_digits_value_prefix(d, i - start, radix as nat);
            }
            return None;
        }
    }
    assert(d.take(n - start) =~= d);
    Some(acc as u64)
}

/// Reads a byte written in base `radix`, with an optional plus sign in front.
pub fn parse_u8(s: &[char], radix: u8) -> (r: Option<u8>)
    requires
        2 <= radix <= 36,
    ensures
        r == u8_text(s@, radix as nat),
{
    match parse_uint(s, radix, 255) {
        Some(n) => Some(n as u8),
        None => None,
    }
}

/// Whether two texts are the same.
pub fn same_text(a: &str, b: &str) -> (r: bool)
    ensures
        r == (a@ == b@),
{
    let x: Vec<char> = chars_of(a);
    let y: Vec<char> = chars_of(b);
    let n: usize = x.len();
    if n != y.len() {
        return false;
    }
    let mut i: usize = 0;
    while i < n
        invariant
            x@ == a@,
            y@ == b@,
            n == x@.len(),
            n == y@.len(),
            i <= n,
            forall|j: int| 0 <= j < i ==> x@[j] == y@[j],
        decreases n - i,
    {
        if x[i] != y[i] {
            return false;
        }
        i = i + 1;
    }
    assert(x@ =~= y@);
    true
}

/// Splits `s` at every occurrence of the characters `a` and `b`.
pub fn split_fields(s: &[char], a: char, b: char) -> (r: Vec<Vec<char>>)
    ensures
        r@.len() == fields(s@, a, b).len(),
        forall|k: int| 0 <= k < r@.len() ==> (#[trigger] r@[k])@ == fields(s@, a, b)[k],
{
    let mut done: Vec<Vec<char>> = Vec::new();
    let mut last: Vec<char> = Vec::new();
    let n: usize = s.len();
    let mut i: usize = 0;
    while i < n
        invariant
            n == s@.len(),
            i <= n,
            fields(s@.take(i as int), a, b).len() == done@.len() + 1,
            fields(s@.take(i as int), a, b).last() == last@,
            forall|k: int|
                0 <= k < done@.len() ==> (#[trigger] done@[k])@ == fields(s@.take(i as int), a, b)[k],
        decreases n - i,
    {
        let c: char = s[i];
        let ghost before = fields(s@.take(i as int), a, b);
        assert(s@.take(i + 1).drop_last() =~= s@.take(i as int));
        if c == a || c == b {
            done.push(last);
            last = Vec::new();
            assert(fields(s@.take(i + 1), a, b) == before.push(Seq::<char>::empty()));
            assert(last@ =~= Seq::<char>::empty());
        } else {
            last.push(c);
        }
        i = i + 1;
    }
    assert(s@.take(n as int) =~= s@);
    done.push(last);
    done
}

/// The first position of `c` in `s`.
pub fn find_char(s: &[char], c: char) -> (r: Option<usize>)
    ensures
        match r {
            Some(i) => i < s@.len() && s@[i as int] == c && !s@.take(i as int).contains(c),
            None => !s@.contains(c),
        },
{
    let n: usize = s.len();
    let mut i: usize = 0;
    while i < n
        invariant
            n == s@.len(),
            i <= n,
            forall|j: int| 0 <= j < i ==> s@[j] != c,
        decreases n - i,
    {
        if s[i] == c {
            return Some(i);
        }
        i = i + 1;
    }
    None
}

/// The digit that `d` is written as reads back as `d`.
pub proof fn lemma_digit_char(d: nat)
    requires
        d < 16,
    ensures
        digit_value(digit_char(d)) == Some(d),
        digit_char(d) != '+',
        digit_char(d) != '.',
        digit_char(d) != ':',
        digit_char(d) != '-',
        d > 0 ==> digit_char(d) != '0',
{
}

/// Two hexadecimal digits read back as the byte that they write.
pub proof fn lemma_hex2_reads_back(b: u8)
    ensures
        u8_text(hex2(b), 16) == Some(b),
        hex2(b).len() == 2,
        forall|i: int| 0 <= i < 2 ==> #[trigger] hex2(b)[i] != ':' && hex2(b)[i] != '-',
{
    let s = hex2(b);
    lemma_digit_char((b / 16) as nat);
    lemma_digit_char((b % 16) as nat);
    reveal_with_fuel(digits_value, 3);
    assert(s.drop_last() =~= seq![s[0]]);
    assert(seq![s[0]].drop_last() =~= Seq::<char>::empty());
    assert(digits_value(seq![s[0]], 16) == (b / 16) as nat);
    assert(digits_value(s, 16) == (b / 16) as nat * 16 + (b % 16) as nat);
    assert forall|i: int| 0 <= i < s.len() implies is_digit(#[trigger] s[i], 16) by {
        assert(s[i] == s[0] || s[i] == s[1]);
    }
}

/// A number reads back from its decimal form, which has no leading zero.
pub proof fn lemma_decimal_reads_back(n: nat)
    ensures
        decimal(n).len() >= 1,
        digits_value(decimal(n), 10) == n,
        forall|i: int| 0 <= i < decimal(n).len() ==> is_digit(#[trigger] decimal(n)[i], 10),
        n > 0 ==> decimal(n)[0] != '0',
        n < 10 <==> decimal(n).len() == 1,
        n < 100 ==> decimal(n).len() <= 2,
        n < 1000 ==> decimal(n).len() <= 3,
    decreases n,
{
    let s = decimal(n);
    lemma_digit_char(n % 10);
    if n < 10 {
        reveal_with_fuel(digits_value, 2);
        assert(s.drop_last() =~= Seq::<char>::empty());
        assert(digits_value(s.drop_last(), 10) == 0);
    } else {
        let front = decimal(n / 10);
        lemma_decimal_reads_back(n / 10);
        assert(s.drop_last() =~= front);
        assert forall|i: int| 0 <= i < s.len() implies is_digit(#[trigger] s[i], 10) by {
            if i < front.len() {
                assert(s[i] == front[i]);
            }
        }
        assert(s[0] == front[0]);
    }
}

/// Whether neither separator occurs in `s`.
pub open spec fn unbroken(s: Seq<char>, a: char, b: char) -> bool {
    forall|i: int| 0 <= i < s.len() ==> #[trigger] s[i] != a && s[i] != b
}

/// Text without a separator is one field.
pub proof fn lemma_fields_single(s: Seq<char>, a: char, b: char)
    requires
        unbroken(s, a, b),
    ensures
        fields(s, a, b) == seq![s],
    decreases s.len(),
{
    if s.len() > 0 {
        lemma_fields_single(s.drop_last(), a, b);
        assert(fields(s, a, b) =~= seq![s.drop_last().push(s.last())]);
        assert(s.drop_last().push(s.last()) =~= s);
    } else {
        assert(s =~= Seq::<char>::empty());
    }
}

/// A separator and more text without one add a field.
pub proof fn lemma_fields_append(s: Seq<char>, more: Seq<char>, a: char, b: char)
    requires
        unbroken(more, a, b),
    ensures
        fields(s.push(a) + more, a, b) == fields(s, a, b).push(more),
    decreases more.len(),
{
    let t = s.push(a) + more;
    if more.len() == 0 {
        assert(t =~= s.push(a));
        assert(t.drop_last() =~= s);
        assert(more =~= Seq::<char>::empty());
    } else {
        let front = more.drop_last();
        lemma_fields_append(s, front, a, b);
        assert(t.drop_last() =~= s.push(a) + front);
        let before = fields(s, a, b).push(front);
        assert(front.push(more.last()) =~= more);
        assert(fields(t, a, b) == before.update(before.len() - 1, before.last().push(more.last())));
        assert(fields(t, a, b) =~= fields(s, a, b).push(more));
    }
}

} // verus!
