//! Big-endian fields and byte ranges of a packet buffer.
//!
//! Every wire format of this crate is read and written through these few
//! functions. The specifications speak of a buffer as a `Seq<u8>`.

use vstd::prelude::*;

verus! {

/// The 16-bit big-endian word whose high byte is `s[i]`.
pub open spec fn be16(s: Seq<u8>, i: int) -> u16 {
    (s[i] as int * 256 + s[i + 1] as int) as u16
}

/// The 32-bit big-endian word whose high byte is `s[i]`.
pub open spec fn be32(s: Seq<u8>, i: int) -> u32 {
    (s[i] as int * 0x100_0000 + s[i + 1] as int * 0x1_0000 + s[i + 2] as int * 0x100
        + s[i + 3] as int) as u32
}

/// The two bytes of `v`, high byte first.
#[verifier::opaque]
pub open spec fn be16_bytes(v: u16) -> Seq<u8> {
    seq![(v / 256) as u8, (v % 256) as u8]
}

/// The four bytes of `v`, high byte first.
#[verifier::opaque]
pub open spec fn be32_bytes(v: u32) -> Seq<u8> {
    seq![
        (v / 0x100_0000) as u8,
        ((v / 0x1_0000) % 256) as u8,
        ((v / 0x100) % 256) as u8,
        (v % 256) as u8,
    ]
}

/// `s` with the bytes from `off` on replaced by `b`.
pub open spec fn splice(s: Seq<u8>, off: int, b: Seq<u8>) -> Seq<u8> {
    Seq::new(s.len(), |i: int| if off <= i < off + b.len() { b[i - off] } else { s[i] })
}

/// The bytes of `s` from `off` on.
pub open spec fn tail(s: Seq<u8>, off: int) -> Seq<u8> {
    s.subrange(off, s.len() as int)
}

pub broadcast proof fn lemma_be16_bytes_len(v: u16)
    ensures
        #[trigger] be16_bytes(v).len() == 2,
{
    reveal(be16_bytes);
}

pub broadcast proof fn lemma_be32_bytes_len(v: u32)
    ensures
        #[trigger] be32_bytes(v).len() == 4,
{
    reveal(be32_bytes);
}

pub broadcast group group_field_lengths {
    lemma_be16_bytes_len,
    lemma_be32_bytes_len,
}

/// Where the two bytes of `v` stand, `v` is read.
pub proof fn lemma_be16_read(s: Seq<u8>, off: int, v: u16)
    requires
        s[off] == be16_bytes(v)[0],
        s[off + 1] == be16_bytes(v)[1],
    ensures
        be16(s, off) == v,
{
    reveal(be16_bytes);
}

/// Where the four bytes of `v` stand, `v` is read.
pub proof fn lemma_be32_read(s: Seq<u8>, off: int, v: u32)
    requires
        s[off] == be32_bytes(v)[0],
        s[off + 1] == be32_bytes(v)[1],
        s[off + 2] == be32_bytes(v)[2],
        s[off + 3] == be32_bytes(v)[3],
    ensures
        be32(s, off) == v,
{
    reveal(be32_bytes);
}

/// The bytes of a 16-bit field are those of the value read.
pub proof fn lemma_be16_bytes_of(s: Seq<u8>, off: int)
    ensures
        be16_bytes(be16(s, off)) == seq![s[off], s[off + 1]],
{
    reveal(be16_bytes);
    assert(be16_bytes(be16(s, off)) =~= seq![s[off], s[off + 1]]);
}

/// The bytes of a 32-bit field are those of the value read.
pub proof fn lemma_be32_bytes_of(s: Seq<u8>, off: int)
    ensures
        be32_bytes(be32(s, off)) == seq![s[off], s[off + 1], s[off + 2], s[off + 3]],
{
    reveal(be32_bytes);
    let (a, b, c, d) = (s[off], s[off + 1], s[off + 2], s[off + 3]);
    let v = be32(s, off);
    assert(v / 0x100_0000 == a && (v / 0x1_0000) % 256 == b && (v / 0x100) % 256 == c && v % 256
        == d) by (bit_vector)
        requires
            v == a * 0x100_0000 + b * 0x1_0000 + c * 0x100 + d,
    ;
    assert(be32_bytes(v) =~= seq![a, b, c, d]);
}

/// Writing a 16-bit field and reading it back gives the value written.
pub proof fn lemma_be16_round_trip(s: Seq<u8>, off: int, v: u16)
    requires
        0 <= off,
        off + 2 <= s.len(),
    ensures
        be16(splice(s, off, be16_bytes(v)), off) == v,
{
    broadcast use group_field_lengths;

    lemma_be16_read(splice(s, off, be16_bytes(v)), off, v);
}

/// A 32-bit field is made of two 16-bit ones.
pub proof fn lemma_be32_halves(s: Seq<u8>, off: int)
    ensures
        be32(s, off) / 0x1_0000 == be16(s, off),
        be32(s, off) % 0x1_0000 == be16(s, off + 2),
{
}

/// Writing a 32-bit field is writing its two halves.
pub proof fn lemma_splice_be32(s: Seq<u8>, off: int, v: u32)
    ensures
        splice(s, off, be32_bytes(v)) == splice(
            splice(s, off, be16_bytes((v / 0x1_0000) as u16)),
            off + 2,
            be16_bytes((v % 0x1_0000) as u16),
        ),
{
    reveal(be16_bytes);
    reveal(be32_bytes);
    assert(splice(s, off, be32_bytes(v)) =~= splice(
        splice(s, off, be16_bytes((v / 0x1_0000) as u16)),
        off + 2,
        be16_bytes((v % 0x1_0000) as u16),
    ));
}

/// Reads the 16-bit big-endian word at `i`.
pub fn get_be16(buf: &[u8], i: usize) -> (r: u16)
    requires
        i + 2 <= buf@.len(),
    ensures
        r == be16(buf@, i as int),
{
    buf[i] as u16 * 256 + buf[i + 1] as u16
}

/// Reads the 32-bit big-endian word at `i`.
pub fn get_be32(buf: &[u8], i: usize) -> (r: u32)
    requires
        i + 4 <= buf@.len(),
    ensures
        r == be32(buf@, i as int),
{
    buf[i] as u32 * 0x100_0000 + buf[i + 1] as u32 * 0x1_0000 + buf[i + 2] as u32 * 0x100
        + buf[i + 3] as u32
}

/// Writes `v` big-endian at `off`.
pub fn put_be16(buf: &mut [u8], off: usize, v: u16)
    requires
        off + 2 <= old(buf)@.len(),
    ensures
        final(buf)@ == splice(old(buf)@, off as int, be16_bytes(v)),
{
    proof {
        reveal(be16_bytes);
    }
    buf[off] = (v / 256) as u8;
    buf[off + 1] = (v % 256) as u8;
}

/// Writes `v` big-endian at `off`.
pub fn put_be32(buf: &mut [u8], off: usize, v: u32)
    requires
        off + 4 <= old(buf)@.len(),
    ensures
        final(buf)@ == splice(old(buf)@, off as int, be32_bytes(v)),
{
    proof {
        reveal(be32_bytes);
    }
    buf[off] = (v / 0x100_0000) as u8;
    buf[off + 1] = ((v / 0x1_0000) % 256) as u8;
    buf[off + 2] = ((v / 0x100) % 256) as u8;
    buf[off + 3] = (v % 256) as u8;
}

/// Copies `src` into `buf` from `off` on.
pub fn put_bytes(buf: &mut [u8], off: usize, src: &[u8])
    requires
        off + src@.len() <= old(buf)@.len(),
    ensures
        final(buf)@ == splice(old(buf)@, off as int, src@),
{
    let n: usize = src.len();
    let room: usize = buf.len();
    let mut i: usize = 0;
    while i < n
        invariant
            n == src@.len(),
            i <= n,
            off + n <= room,
            room == old(buf)@.len(),
            buf@ == splice(old(buf)@, off as int, src@.subrange(0, i as int)),
        decreases n - i,
    {
        buf[off + i] = src[i];
        i = i + 1;
        assert(buf@ =~= splice(old(buf)@, off as int, src@.subrange(0, i as int)));
    }
    assert(src@.subrange(0, n as int) =~= src@);
}

/// The bytes of `buf` from `off` on.
pub fn skip(buf: &[u8], off: usize) -> (r: &[u8])
    requires
        off <= buf@.len(),
    ensures
        r@ == tail(buf@, off as int),
{
    let n: usize = buf.len();
    &buf[off..n]
}

} // verus!
