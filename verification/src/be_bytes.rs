//! Big-endian encodings of the fixed-width integers of the file format.
use vstd::prelude::*;

verus! {

/// The two bytes of `v`, most significant first.
pub open spec fn be16(v: u16) -> Seq<u8> {
    seq![(v / 0x100) as u8, (v % 0x100) as u8]
}

/// The four bytes of `v`, most significant first.
pub open spec fn be32(v: u32) -> Seq<u8> {
    seq![
        (v / 0x100_0000) as u8,
        (v / 0x1_0000 % 0x100) as u8,
        (v / 0x100 % 0x100) as u8,
        (v % 0x100) as u8,
    ]
}

/// The eight bytes of `v`, most significant first.
pub open spec fn be64(v: u64) -> Seq<u8> {
    be32((v / 0x1_0000_0000) as u32) + be32((v % 0x1_0000_0000) as u32)
}

/// The sixteen bytes of `v`, most significant first.
pub open spec fn be128(v: u128) -> Seq<u8> {
    be64((v / 0x1_0000_0000_0000_0000) as u64) + be64((v % 0x1_0000_0000_0000_0000) as u64)
}

/// The number that the two bytes of `s` from `at` on spell.
pub open spec fn u16_at(s: Seq<u8>, at: int) -> u16 {
    (s[at] as int * 0x100 + s[at + 1] as int) as u16
}

/// The number that the four bytes of `s` from `at` on spell.
pub open spec fn u32_at(s: Seq<u8>, at: int) -> u32 {
    (s[at] as int * 0x100_0000 + s[at + 1] as int * 0x1_0000 + s[at + 2] as int * 0x100 + s[at
        + 3] as int) as u32
}

/// The number that the eight bytes of `s` from `at` on spell.
pub open spec fn u64_at(s: Seq<u8>, at: int) -> u64 {
    (u32_at(s, at) as int * 0x1_0000_0000 + u32_at(s, at + 4) as int) as u64
}

/// The number that the sixteen bytes of `s` from `at` on spell.
pub open spec fn u128_at(s: Seq<u8>, at: int) -> u128 {
    (u64_at(s, at) as int * 0x1_0000_0000_0000_0000 + u64_at(s, at + 8) as int) as u128
}

/// Four bytes are found again in the number that they spell.
proof fn lemma_join32(a: u8, b: u8, c: u8, d: u8)
    by (bit_vector)
    ensures
        a as u32 * 0x100_0000 + b as u32 * 0x1_0000 + c as u32 * 0x100 + d as u32 <= 0xffff_ffff,
        (a as u32 * 0x100_0000 + b as u32 * 0x1_0000 + c as u32 * 0x100 + d as u32) / 0x100_0000
            == a,
        (a as u32 * 0x100_0000 + b as u32 * 0x1_0000 + c as u32 * 0x100 + d as u32) / 0x1_0000
            % 0x100 == b,
        (a as u32 * 0x100_0000 + b as u32 * 0x1_0000 + c as u32 * 0x100 + d as u32) / 0x100 % 0x100
            == c,
        (a as u32 * 0x100_0000 + b as u32 * 0x1_0000 + c as u32 * 0x100 + d as u32) % 0x100 == d,
{
}

/// A number is spelled by its four bytes.
proof fn lemma_split32(v: u32)
    by (bit_vector)
    ensures
        v / 0x100_0000 <= 0xff,
        (v / 0x100_0000) * 0x100_0000 + (v / 0x1_0000 % 0x100) * 0x1_0000 + (v / 0x100 % 0x100)
            * 0x100 + v % 0x100 == v,
{
}

/// Two words are found again in the number that they spell.
proof fn lemma_join64(hi: u32, lo: u32)
    by (bit_vector)
    ensures
        hi as u64 * 0x1_0000_0000 + lo as u64 <= 0xffff_ffff_ffff_ffff,
        (hi as u64 * 0x1_0000_0000 + lo as u64) / 0x1_0000_0000 == hi,
        (hi as u64 * 0x1_0000_0000 + lo as u64) % 0x1_0000_0000 == lo,
{
}

/// A number is spelled by its two words.
proof fn lemma_split64(v: u64)
    by (bit_vector)
    ensures
        v / 0x1_0000_0000 <= 0xffff_ffff,
        (v / 0x1_0000_0000) * 0x1_0000_0000 + v % 0x1_0000_0000 == v,
{
}

/// Two double words are found again in the number that they spell.
proof fn lemma_join128(hi: u64, lo: u64)
    by (bit_vector)
    ensures
        hi as u128 * 0x1_0000_0000_0000_0000 + lo as u128
            <= 0xffff_ffff_ffff_ffff_ffff_ffff_ffff_ffff,
        (hi as u128 * 0x1_0000_0000_0000_0000 + lo as u128) / 0x1_0000_0000_0000_0000 == hi,
        (hi as u128 * 0x1_0000_0000_0000_0000 + lo as u128) % 0x1_0000_0000_0000_0000 == lo,
{
}

/// A number is spelled by its two double words.
proof fn lemma_split128(v: u128)
    by (bit_vector)
    ensures
        v / 0x1_0000_0000_0000_0000 <= 0xffff_ffff_ffff_ffff,
        (v / 0x1_0000_0000_0000_0000) * 0x1_0000_0000_0000_0000 + v % 0x1_0000_0000_0000_0000
            == v,
{
}

/// The lengths of the encodings.
pub proof fn lemma_be_lengths(a: u16, b: u32, c: u64, d: u128)
    ensures
        be16(a).len() == 2,
        be32(b).len() == 4,
        be64(c).len() == 8,
        be128(d).len() == 16,
{
}

/// Reading back what `be16` wrote gives the number.
pub proof fn lemma_u16_at_be16(s: Seq<u8>, at: int, v: u16)
    requires
        0 <= at,
        at + 2 <= s.len(),
        s.subrange(at, at + 2) == be16(v),
    ensures
        u16_at(s, at) == v,
{
    let w = s.subrange(at, at + 2);
    assert(s[at] == w[0] && s[at + 1] == w[1]);
}

/// Reading back what `be32` wrote gives the number.
pub proof fn lemma_u32_at_be32(s: Seq<u8>, at: int, v: u32)
    requires
        0 <= at,
        at + 4 <= s.len(),
        s.subrange(at, at + 4) == be32(v),
    ensures
        u32_at(s, at) == v,
{
    let w = s.subrange(at, at + 4);
    assert(s[at] == w[0] && s[at + 1] == w[1] && s[at + 2] == w[2] && s[at + 3] == w[3]);
    lemma_split32(v);
}

/// Reading back what `be64` wrote gives the number.
pub proof fn lemma_u64_at_be64(s: Seq<u8>, at: int, v: u64)
    requires
        0 <= at,
        at + 8 <= s.len(),
        s.subrange(at, at + 8) == be64(v),
    ensures
        u64_at(s, at) == v,
{
    let hi = (v / 0x1_0000_0000) as u32;
    let lo = (v % 0x1_0000_0000) as u32;
    let w = s.subrange(at, at + 8);
    assert(s.subrange(at, at + 4) =~= w.subrange(0, 4));
    assert(s.subrange(at + 4, at + 8) =~= w.subrange(4, 8));
    assert(w.subrange(0, 4) =~= be32(hi));
    assert(w.subrange(4, 8) =~= be32(lo));
    lemma_u32_at_be32(s, at, hi);
    lemma_u32_at_be32(s, at + 4, lo);
    lemma_split64(v);
}

/// Reading back what `be128` wrote gives the number.
pub proof fn lemma_u128_at_be128(s: Seq<u8>, at: int, v: u128)
    requires
        0 <= at,
        at + 16 <= s.len(),
        s.subrange(at, at + 16) == be128(v),
    ensures
        u128_at(s, at) == v,
{
    let hi = (v / 0x1_0000_0000_0000_0000) as u64;
    let lo = (v % 0x1_0000_0000_0000_0000) as u64;
    let w = s.subrange(at, at + 16);
    assert(be64(hi).len() == 8 && be64(lo).len() == 8);
    assert(s.subrange(at, at + 8) =~= w.subrange(0, 8));
    assert(s.subrange(at + 8, at + 16) =~= w.subrange(8, 16));
    assert(w.subrange(0, 8) =~= be64(hi));
    assert(w.subrange(8, 16) =~= be64(lo));
    lemma_u64_at_be64(s, at, hi);
    lemma_u64_at_be64(s, at + 8, lo);
    lemma_split128(v);
}

/// Writing the number that four bytes spell gives those bytes.
pub proof fn lemma_be32_u32_at(s: Seq<u8>, at: int)
    requires
        0 <= at,
        at + 4 <= s.len(),
    ensures
        be32(u32_at(s, at)) == s.subrange(at, at + 4),
{
    lemma_join32(s[at], s[at + 1], s[at + 2], s[at + 3]);
    assert(be32(u32_at(s, at)) =~= s.subrange(at, at + 4));
}

/// Writing the number that eight bytes spell gives those bytes.
pub proof fn lemma_be64_u64_at(s: Seq<u8>, at: int)
    requires
        0 <= at,
        at + 8 <= s.len(),
    ensures
        be64(u64_at(s, at)) == s.subrange(at, at + 8),
{
    lemma_be32_u32_at(s, at);
    lemma_be32_u32_at(s, at + 4);
    let v = u64_at(s, at);
    lemma_join64(u32_at(s, at), u32_at(s, at + 4));
    assert((v / 0x1_0000_0000) as u32 == u32_at(s, at));
    assert((v % 0x1_0000_0000) as u32 == u32_at(s, at + 4));
    assert(be64(v) =~= s.subrange(at, at + 8));
}

/// Appends the two bytes of `v`.
pub fn put_u16(buf: &mut Vec<u8>, v: u16)
    ensures
        final(buf)@ == old(buf)@ + be16(v),
{
    buf.push((v / 0x100) as u8);
    buf.push((v % 0x100) as u8);
    assert(buf@ =~= old(buf)@ + be16(v));
}

/// Appends the four bytes of `v`.
pub fn put_u32(buf: &mut Vec<u8>, v: u32)
    ensures
        final(buf)@ == old(buf)@ + be32(v),
{
    proof {
        lemma_split32(v);
    }
    buf.push((v / 0x100_0000) as u8);
    buf.push((v / 0x1_0000 % 0x100) as u8);
    buf.push((v / 0x100 % 0x100) as u8);
    buf.push((v % 0x100) as u8);
    assert(buf@ =~= old(buf)@ + be32(v));
}

/// Appends the eight bytes of `v`.
pub fn put_u64(buf: &mut Vec<u8>, v: u64)
    ensures
        final(buf)@ == old(buf)@ + be64(v),
{
    proof {
        lemma_split64(v);
    }
    put_u32(buf, (v / 0x1_0000_0000) as u32);
    put_u32(buf, (v % 0x1_0000_0000) as u32);
    assert(buf@ =~= old(buf)@ + be64(v));
}

/// Appends the sixteen bytes of `v`.
pub fn put_u128(buf: &mut Vec<u8>, v: u128)
    ensures
        final(buf)@ == old(buf)@ + be128(v),
{
    proof {
        lemma_split128(v);
    }
    put_u64(buf, (v / 0x1_0000_0000_0000_0000) as u64);
    put_u64(buf, (v % 0x1_0000_0000_0000_0000) as u64);
    assert(buf@ =~= old(buf)@ + be128(v));
}

/// Reads the two bytes from `at` on.
pub fn get_u16(buf: &[u8], at: usize) -> (v: u16)
    requires
        at + 2 <= buf.len(),
    ensures
        v == u16_at(buf@, at as int),
{
    (buf[at] as u16) * 0x100 + (buf[at + 1] as u16)
}

/// Reads the four bytes from `at` on.
pub fn get_u32(buf: &[u8], at: usize) -> (v: u32)
    requires
        at + 4 <= buf.len(),
    ensures
        v == u32_at(buf@, at as int),
{
    proof {
        lemma_join32(buf[at as int], buf[at + 1], buf[at + 2], buf[at + 3]);
    }
    (buf[at] as u32) * 0x100_0000 + (buf[at + 1] as u32) * 0x1_0000 + (buf[at + 2] as u32) * 0x100
        + (buf[at + 3] as u32)
}

/// Reads the eight bytes from `at` on.
pub fn get_u64(buf: &[u8], at: usize) -> (v: u64)
    requires
        at + 8 <= buf.len(),
    ensures
        v == u64_at(buf@, at as int),
{
    proof {
        lemma_join64(u32_at(buf@, at as int), u32_at(buf@, at + 4));
    }
    (get_u32(buf, at) as u64) * 0x1_0000_0000 + (get_u32(buf, at + 4) as u64)
}

/// Reads the sixteen bytes from `at` on.
pub fn get_u128(buf: &[u8], at: usize) -> (v: u128)
    requires
        at + 16 <= buf.len(),
    ensures
        v == u128_at(buf@, at as int),
{
    proof {
        lemma_join128(u64_at(buf@, at as int), u64_at(buf@, at + 8));
    }
    (get_u64(buf, at) as u128) * 0x1_0000_0000_0000_0000 + (get_u64(buf, at + 8) as u128)
}

} // verus!
