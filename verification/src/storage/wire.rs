//! Fixed-width big-endian integers and length-prefixed byte strings.
use crate::storage::order::{
    before_at, lemma_lt_asymmetric, lemma_lt_extend, lemma_lt_irreflexive, lemma_lt_shift,
    lemma_total, lex_lt,
};
use vstd::arithmetic::div_mod::lemma_fundamental_div_mod_converse;
use vstd::prelude::*;

verus! {

/// The byte of `x` that counts units of 256 to the power `k`.
pub closed spec fn byte_of(x: u32, k: nat) -> u8 {
    if k == 0 {
        (x % 256) as u8
    } else if k == 1 {
        ((x / 0x100) % 256) as u8
    } else if k == 2 {
        ((x / 0x1_0000) % 256) as u8
    } else {
        (x / 0x100_0000) as u8
    }
}

/// The number made of four bytes, the most significant given first.
pub closed spec fn join32(b3: u8, b2: u8, b1: u8, b0: u8) -> u32 {
    (b3 * 0x100_0000 + b2 * 0x1_0000 + b1 * 0x100 + b0) as u32
}

/// The number made of two halves of thirty-two bits.
pub closed spec fn join64(hi: u32, lo: u32) -> u64 {
    (hi * 0x1_0000_0000 + lo) as u64
}

pub closed spec fn high_half(x: u64) -> u32 {
    (x / 0x1_0000_0000) as u32
}

pub closed spec fn low_half(x: u64) -> u32 {
    (x % 0x1_0000_0000) as u32
}

/// The four bytes of `x`, most significant first.
pub open spec fn be32(x: u32) -> Seq<u8> {
    seq![byte_of(x, 3), byte_of(x, 2), byte_of(x, 1), byte_of(x, 0)]
}

/// The number whose big-endian bytes start at `pos` in `s`.
pub open spec fn be32_at(s: Seq<u8>, pos: int) -> u32 {
    join32(s[pos], s[pos + 1], s[pos + 2], s[pos + 3])
}

/// The eight bytes of `x`, most significant first.
pub open spec fn be64(x: u64) -> Seq<u8> {
    be32(high_half(x)) + be32(low_half(x))
}

pub open spec fn be64_at(s: Seq<u8>, pos: int) -> u64 {
    join64(be32_at(s, pos), be32_at(s, pos + 4))
}

/// Taking a number apart and putting it together again changes nothing.
pub proof fn lemma_join_bytes(x: u32)
    ensures
        join32(byte_of(x, 3), byte_of(x, 2), byte_of(x, 1), byte_of(x, 0)) == x,
{
}

/// Four bytes put together come apart as the same four bytes.
pub proof fn lemma_bytes_of_join(b3: u8, b2: u8, b1: u8, b0: u8)
    ensures
        byte_of(join32(b3, b2, b1, b0), 3) == b3,
        byte_of(join32(b3, b2, b1, b0), 2) == b2,
        byte_of(join32(b3, b2, b1, b0), 1) == b1,
        byte_of(join32(b3, b2, b1, b0), 0) == b0,
{
    let x = join32(b3, b2, b1, b0) as int;
    let (c3, c2, c1, c0) = (b3 as int, b2 as int, b1 as int, b0 as int);
    lemma_fundamental_div_mod_converse(x, 0x100_0000, c3, c2 * 0x1_0000 + c1 * 0x100 + c0);
    lemma_fundamental_div_mod_converse(x, 0x1_0000, c3 * 0x100 + c2, c1 * 0x100 + c0);
    lemma_fundamental_div_mod_converse(c3 * 0x100 + c2, 256, c3, c2);
    lemma_fundamental_div_mod_converse(x, 0x100, c3 * 0x1_0000 + c2 * 0x100 + c1, c0);
    lemma_fundamental_div_mod_converse(c3 * 0x1_0000 + c2 * 0x100 + c1, 256, c3 * 0x100 + c2, c1);
}

pub proof fn lemma_join_halves(x: u64)
    ensures
        join64(high_half(x), low_half(x)) == x,
{
}

pub proof fn lemma_halves_of_join(hi: u32, lo: u32)
    ensures
        high_half(join64(hi, lo)) == hi,
        low_half(join64(hi, lo)) == lo,
{
    lemma_fundamental_div_mod_converse(join64(hi, lo) as int, 0x1_0000_0000, hi as int, lo as int);
}



/// Offset-binary form of a signed number: the sign bit flipped, so that the
/// unsigned order of the results is the signed order of the arguments.
pub open spec fn flip32(x: i32) -> u32 {
    (x + 0x8000_0000) as u32
}

pub open spec fn unflip32(u: u32) -> i32 {
    (u - 0x8000_0000) as i32
}

pub open spec fn flip64(x: i64) -> u64 {
    (x + 0x8000_0000_0000_0000) as u64
}

pub open spec fn unflip64(u: u64) -> i64 {
    (u - 0x8000_0000_0000_0000) as i64
}

/// `part` occurs in `s` at `pos`.
pub open spec fn holds_at(s: Seq<u8>, pos: int, part: Seq<u8>) -> bool {
    &&& 0 <= pos
    &&& pos + part.len() <= s.len()
    &&& s.subrange(pos, pos + part.len()) == part
}

pub proof fn lemma_be32_at(s: Seq<u8>, pos: int, x: u32)
    requires
        holds_at(s, pos, be32(x)),
    ensures
        be32_at(s, pos) == x,
{
    let w = s.subrange(pos, pos + 4);
    assert(w[0] == s[pos] && w[1] == s[pos + 1] && w[2] == s[pos + 2] && w[3] == s[pos + 3]);
    lemma_join_bytes(x);
}

pub proof fn lemma_be32_of(s: Seq<u8>, pos: int)
    requires
        0 <= pos,
        pos + 4 <= s.len(),
    ensures
        holds_at(s, pos, be32(be32_at(s, pos))),
{
    lemma_bytes_of_join(s[pos], s[pos + 1], s[pos + 2], s[pos + 3]);
    assert(s.subrange(pos, pos + 4) =~= be32(be32_at(s, pos)));
}

pub proof fn lemma_be64_at(s: Seq<u8>, pos: int, x: u64)
    requires
        holds_at(s, pos, be64(x)),
    ensures
        be64_at(s, pos) == x,
{
    let hi = high_half(x);
    let lo = low_half(x);
    let w = s.subrange(pos, pos + 8);
    assert(s.subrange(pos, pos + 4) =~= w.subrange(0, 4));
    assert(s.subrange(pos + 4, pos + 8) =~= w.subrange(4, 8));
    assert(w.subrange(0, 4) =~= be32(hi));
    assert(w.subrange(4, 8) =~= be32(lo));
    lemma_be32_at(s, pos, hi);
    lemma_be32_at(s, pos + 4, lo);
    lemma_join_halves(x);
}

pub proof fn lemma_be64_of(s: Seq<u8>, pos: int)
    requires
        0 <= pos,
        pos + 8 <= s.len(),
    ensures
        holds_at(s, pos, be64(be64_at(s, pos))),
{
    lemma_be32_of(s, pos);
    lemma_be32_of(s, pos + 4);
    lemma_halves_of_join(be32_at(s, pos), be32_at(s, pos + 4));
    assert(s.subrange(pos, pos + 8) =~= s.subrange(pos, pos + 4) + s.subrange(pos + 4, pos + 8));
}

/// Appends the big-endian bytes of `x`.
pub fn put_u32(out: &mut Vec<u8>, x: u32)
    ensures
        final(out)@ == old(out)@ + be32(x),
{
    out.push((x / 0x100_0000) as u8);
    out.push(((x / 0x1_0000) % 256) as u8);
    out.push(((x / 0x100) % 256) as u8);
    out.push((x % 256) as u8);
    assert(out@ =~= old(out)@ + be32(x));
}

pub fn put_u64(out: &mut Vec<u8>, x: u64)
    ensures
        final(out)@ == old(out)@ + be64(x),
{
    put_u32(out, (x / 0x1_0000_0000) as u32);
    put_u32(out, (x % 0x1_0000_0000) as u32);
    assert(out@ =~= old(out)@ + be64(x));
}

/// Reads four bytes at `pos`, if there are that many.
pub fn get_u32(bytes: &[u8], pos: usize) -> (r: Option<u32>)
    ensures
        r is Some <==> pos + 4 <= bytes@.len(),
        r is Some ==> r->0 == be32_at(bytes@, pos as int),
{
    if bytes.len() < 4 || pos > bytes.len() - 4 {
        return None;
    }
    let b0: u32 = bytes[pos] as u32;
    let b1: u32 = bytes[pos + 1] as u32;
    let b2: u32 = bytes[pos + 2] as u32;
    let b3: u32 = bytes[pos + 3] as u32;
    Some(b0 * 0x100_0000 + b1 * 0x1_0000 + b2 * 0x100 + b3)
}

pub fn get_u64(bytes: &[u8], pos: usize) -> (r: Option<u64>)
    ensures
        r is Some <==> pos + 8 <= bytes@.len(),
        r is Some ==> r->0 == be64_at(bytes@, pos as int),
{
    if bytes.len() < 8 || pos > bytes.len() - 8 {
        return None;
    }
    let hi = get_u32(bytes, pos);
    let lo = get_u32(bytes, pos + 4);
    match (hi, lo) {
        (Some(h), Some(l)) => Some((h as u64) * 0x1_0000_0000 + (l as u64)),
        _ => None,
    }
}

} // verus!

verus! {

/// A part that holds at `pos` is made of parts that hold one after the other.
pub proof fn lemma_holds_split(s: Seq<u8>, pos: int, a: Seq<u8>, b: Seq<u8>)
    requires
        0 <= pos,
    ensures
        holds_at(s, pos, a + b) <==> holds_at(s, pos, a) && holds_at(s, pos + a.len(), b),
{
    if holds_at(s, pos, a + b) {
        let w = s.subrange(pos, pos + (a + b).len());
        assert(s.subrange(pos, pos + a.len()) =~= w.subrange(0, a.len() as int));
        assert(w.subrange(0, a.len() as int) =~= a);
        assert(s.subrange(pos + a.len(), pos + a.len() + b.len()) =~= w.subrange(
            a.len() as int,
            (a + b).len() as int,
        ));
        assert(w.subrange(a.len() as int, (a + b).len() as int) =~= b);
    }
    if holds_at(s, pos, a) && holds_at(s, pos + a.len(), b) {
        assert(s.subrange(pos, pos + (a + b).len()) =~= s.subrange(pos, pos + a.len())
            + s.subrange(pos + a.len(), pos + a.len() + b.len()));
    }
}

/// A part holds at the end of what it was appended to.
pub proof fn lemma_holds_appended(a: Seq<u8>, b: Seq<u8>)
    ensures
        holds_at(a + b, a.len() as int, b),
        holds_at(a + b, 0, a),
{
    assert((a + b).subrange(a.len() as int, (a.len() + b.len()) as int) =~= b);
    assert((a + b).subrange(0, a.len() as int) =~= a);
}

/// Appends `b`.
pub fn put_bytes(out: &mut Vec<u8>, b: &[u8])
    ensures
        final(out)@ == old(out)@ + b@,
{
    let mut i: usize = 0;
    while i < b.len()
        invariant
            i <= b@.len(),
            out@ == old(out)@ + b@.take(i as int),
        decreases b@.len() - i,
    {
        out.push(b[i]);
        assert(out@ =~= old(out)@ + b@.take(i + 1));
        i += 1;
    }
    assert(b@.take(i as int) =~= b@);
}

/// One byte for a flag: 1 for true, 0 for false.
pub open spec fn flag(b: bool) -> u8 {
    if b {
        1u8
    } else {
        0u8
    }
}

} // verus!

verus! {

/// Where the bytes of one number come before those of another, the number
/// is the smaller.
pub proof fn lemma_be32_smaller(x: u32, y: u32)
    requires
        lex_lt(be32(x), be32(y)),
    ensures
        x < y,
{
    let a = be32(x);
    let b = be32(y);
    let i = choose|i: int| before_at(a, b, i);
    lemma_join_bytes(x);
    lemma_join_bytes(y);
    assert(a[0] == byte_of(x, 3) && a[1] == byte_of(x, 2) && a[2] == byte_of(x, 1) && a[3]
        == byte_of(x, 0));
    assert(b[0] == byte_of(y, 3) && b[1] == byte_of(y, 2) && b[2] == byte_of(y, 1) && b[3]
        == byte_of(y, 0));
    if i >= 1 {
        assert(a[0] == b[0]);
    }
    if i >= 2 {
        assert(a[1] == b[1]);
    }
    if i >= 3 {
        assert(a[2] == b[2]);
    }
}

/// The bytes of numbers are ordered as the numbers are.
pub proof fn lemma_be32_order(x: u32, y: u32)
    ensures
        x < y <==> lex_lt(be32(x), be32(y)),
{
    let a = be32(x);
    let b = be32(y);
    lemma_total(a, b);
    if lex_lt(a, b) {
        lemma_be32_smaller(x, y);
    }
    if lex_lt(b, a) {
        lemma_be32_smaller(y, x);
        lemma_lt_asymmetric(b, a);
    }
    if a == b {
        lemma_join_bytes(x);
        lemma_join_bytes(y);
        assert(a[0] == b[0] && a[1] == b[1] && a[2] == b[2] && a[3] == b[3]);
        crate::storage::order::lemma_lt_irreflexive(a);
    }
}


/// The bytes of wide numbers are ordered as the numbers are.
pub proof fn lemma_be64_order(x: u64, y: u64)
    ensures
        x < y <==> lex_lt(be64(x), be64(y)),
{
    lemma_join_halves(x);
    lemma_join_halves(y);
    lemma_lt_irreflexive(be64(x));
    if x < y {
        lemma_be64_rising(x, y);
    } else if y < x {
        lemma_be64_rising(y, x);
        lemma_lt_asymmetric(be64(y), be64(x));
    }
}

proof fn lemma_be64_rising(x: u64, y: u64)
    requires
        x < y,
    ensures
        lex_lt(be64(x), be64(y)),
{
    lemma_join_halves(x);
    lemma_join_halves(y);
    let (hx, lx, hy, ly) = (high_half(x), low_half(x), high_half(y), low_half(y));
    if hx == hy {
        lemma_be32_order(lx, ly);
        lemma_lt_shift(be32(hx), be32(lx), be32(ly));
    } else {
        lemma_be32_order(hx, hy);
        lemma_lt_extend(be32(hx), be32(hy), be32(lx), be32(ly));
    }
}

} // verus!
