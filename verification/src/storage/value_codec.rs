//! How texts and values are written into keys and payloads.
//!
//! A text is its UTF-8 bytes behind their count, so that no text's form is
//! the beginning of another's. A value is a byte for its type, a byte that
//! tells null from present, and then the content; integers are written in
//! offset binary, most significant byte first, so that the forms of two
//! present integers of one type are ordered as the integers are.
use crate::storage::wire::{
    be32, be32_at, be64, be64_at, flag, flip32, flip64, get_u32, get_u64, holds_at, lemma_be32_at,
    lemma_be32_of, lemma_be64_at, lemma_be64_of, lemma_holds_split, put_bytes, put_u32, put_u64,
    unflip32, unflip64,
};
use crate::types::value::{DataValue, ValueView};
use vstd::prelude::*;
use vstd::slice::{slice_subrange, slice_to_vec};
use vstd::string::StringSliceAdditionalSpecFns;
use vstd::utf8::{
    decode_utf8, decode_utf8_encode_utf8, encode_utf8, encode_utf8_decode_utf8,
    encode_utf8_valid_utf8, valid_utf8,
};

verus! {

/// Bytes behind their count.
pub open spec fn sized(b: Seq<u8>) -> Seq<u8> {
    be64(b.len() as u64) + b
}

/// The form of a text.
pub open spec fn text(t: Seq<char>) -> Seq<u8> {
    sized(encode_utf8(t))
}

/// The text is short enough for its byte count to be written.
pub open spec fn text_ok(t: Seq<char>) -> bool {
    encode_utf8(t).len() <= u64::MAX
}

/// The text whose form starts at `pos`, and where that form ends.
pub open spec fn parse_text(s: Seq<u8>, pos: int) -> Option<(Seq<char>, int)> {
    if pos < 0 || pos + 8 > s.len() {
        None
    } else {
        let n = be64_at(s, pos) as int;
        let b = s.subrange(pos + 8, pos + 8 + n);
        if pos + 8 + n > s.len() || !valid_utf8(b) {
            None
        } else {
            Some((decode_utf8(b), pos + 8 + n))
        }
    }
}

pub proof fn lemma_text_parse(s: Seq<u8>, pos: int, t: Seq<char>)
    requires
        text_ok(t),
        holds_at(s, pos, text(t)),
    ensures
        parse_text(s, pos) == Some((t, pos + text(t).len())),
{
    let b = encode_utf8(t);
    lemma_holds_split(s, pos, be64(b.len() as u64), b);
    lemma_be64_at(s, pos, b.len() as u64);
    encode_utf8_valid_utf8(t);
    encode_utf8_decode_utf8(t);
}

pub proof fn lemma_text_exact(s: Seq<u8>, pos: int)
    requires
        parse_text(s, pos) is Some,
    ensures
        parse_text(s, pos) matches Some((t, e)) && text_ok(t) && holds_at(s, pos, text(t)) && e
            == pos + text(t).len(),
{
    let n = be64_at(s, pos) as int;
    let b = s.subrange(pos + 8, pos + 8 + n);
    decode_utf8_encode_utf8(b);
    lemma_be64_of(s, pos);
    lemma_holds_split(s, pos, be64(n as u64), b);
}

/// The form of a value.
pub open spec fn value_bytes(v: ValueView) -> Seq<u8> {
    match v {
        ValueView::Null => seq![0u8],
        ValueView::Boolean(None) => seq![1u8, 0u8],
        ValueView::Boolean(Some(b)) => seq![1u8, 1u8, flag(b)],
        ValueView::Int32(None) => seq![2u8, 0u8],
        ValueView::Int32(Some(x)) => seq![2u8, 1u8] + be32(flip32(x)),
        ValueView::Int64(None) => seq![3u8, 0u8],
        ValueView::Int64(Some(x)) => seq![3u8, 1u8] + be64(flip64(x)),
        ValueView::Utf8(None) => seq![4u8, 0u8],
        ValueView::Utf8(Some(t)) => seq![4u8, 1u8] + text(t),
    }
}

/// Every text in the value is short enough to be written.
pub open spec fn value_ok(v: ValueView) -> bool {
    match v {
        ValueView::Utf8(Some(t)) => text_ok(t),
        _ => true,
    }
}

/// The value whose form starts at `pos`, and where that form ends.
pub open spec fn parse_value(s: Seq<u8>, pos: int) -> Option<(ValueView, int)> {
    if pos < 0 || pos >= s.len() {
        None
    } else if s[pos] == 0 {
        Some((ValueView::Null, pos + 1))
    } else if s[pos] > 4 || pos + 1 >= s.len() || s[pos + 1] > 1 {
        None
    } else if s[pos + 1] == 0 {
        Some(
            (
                if s[pos] == 1 {
                    ValueView::Boolean(None)
                } else if s[pos] == 2 {
                    ValueView::Int32(None)
                } else if s[pos] == 3 {
                    ValueView::Int64(None)
                } else {
                    ValueView::Utf8(None)
                },
                pos + 2,
            ),
        )
    } else if s[pos] == 1 {
        if pos + 2 < s.len() && s[pos + 2] <= 1 {
            Some((ValueView::Boolean(Some(s[pos + 2] == 1)), pos + 3))
        } else {
            None
        }
    } else if s[pos] == 2 {
        if pos + 6 <= s.len() {
            Some((ValueView::Int32(Some(unflip32(be32_at(s, pos + 2)))), pos + 6))
        } else {
            None
        }
    } else if s[pos] == 3 {
        if pos + 10 <= s.len() {
            Some((ValueView::Int64(Some(unflip64(be64_at(s, pos + 2)))), pos + 10))
        } else {
            None
        }
    } else {
        match parse_text(s, pos + 2) {
            Some((t, e)) => Some((ValueView::Utf8(Some(t)), e)),
            None => None,
        }
    }
}

pub proof fn lemma_value_parse(s: Seq<u8>, pos: int, v: ValueView)
    requires
        value_ok(v),
        holds_at(s, pos, value_bytes(v)),
    ensures
        parse_value(s, pos) == Some((v, pos + value_bytes(v).len())),
{
    let f = value_bytes(v);
    let w = s.subrange(pos, pos + f.len());
    assert(w[0] == s[pos]);
    if f.len() > 1 {
        assert(w[1] == s[pos + 1]);
    }
    match v {
        ValueView::Boolean(Some(b)) => {
            assert(w[2] == s[pos + 2]);
        },
        ValueView::Int32(Some(x)) => {
            lemma_holds_split(s, pos, seq![2u8, 1u8], be32(flip32(x)));
            lemma_be32_at(s, pos + 2, flip32(x));
        },
        ValueView::Int64(Some(x)) => {
            lemma_holds_split(s, pos, seq![3u8, 1u8], be64(flip64(x)));
            lemma_be64_at(s, pos + 2, flip64(x));
        },
        ValueView::Utf8(Some(t)) => {
            lemma_holds_split(s, pos, seq![4u8, 1u8], text(t));
            lemma_text_parse(s, pos + 2, t);
        },
        _ => {},
    }
}

pub proof fn lemma_value_exact(s: Seq<u8>, pos: int)
    requires
        parse_value(s, pos) is Some,
    ensures
        parse_value(s, pos) matches Some((v, e)) && value_ok(v) && holds_at(
            s,
            pos,
            value_bytes(v),
        ) && e == pos + value_bytes(v).len(),
{
    let (v, e) = parse_value(s, pos)->0;
    match v {
        ValueView::Int32(Some(x)) => {
            lemma_be32_of(s, pos + 2);
            assert(flip32(x) == be32_at(s, pos + 2));
            assert(s.subrange(pos, pos + 2) =~= seq![2u8, 1u8]);
            lemma_holds_split(s, pos, seq![2u8, 1u8], be32(flip32(x)));
        },
        ValueView::Int64(Some(x)) => {
            lemma_be64_of(s, pos + 2);
            assert(flip64(x) == be64_at(s, pos + 2));
            assert(s.subrange(pos, pos + 2) =~= seq![3u8, 1u8]);
            lemma_holds_split(s, pos, seq![3u8, 1u8], be64(flip64(x)));
        },
        ValueView::Utf8(Some(t)) => {
            lemma_text_exact(s, pos + 2);
            assert(s.subrange(pos, pos + 2) =~= seq![4u8, 1u8]);
            lemma_holds_split(s, pos, seq![4u8, 1u8], text(t));
        },
        _ => {
            assert(s.subrange(pos, e) =~= value_bytes(v));
        },
    }
}

/// The forms of the values, one after the other.
pub open spec fn values_bytes(vs: Seq<ValueView>) -> Seq<u8>
    decreases vs.len(),
{
    if vs.len() == 0 {
        Seq::empty()
    } else {
        values_bytes(vs.drop_last()) + value_bytes(vs.last())
    }
}

pub open spec fn values_ok(vs: Seq<ValueView>) -> bool {
    forall|i: int| 0 <= i < vs.len() ==> value_ok(#[trigger] vs[i])
}

/// The `n` values whose forms follow each other from `pos`, and where the
/// last form ends.
pub open spec fn parse_values(s: Seq<u8>, pos: int, n: nat) -> Option<(Seq<ValueView>, int)>
    decreases n,
{
    if n == 0 {
        if 0 <= pos <= s.len() {
            Some((Seq::empty(), pos))
        } else {
            None
        }
    } else {
        match parse_values(s, pos, (n - 1) as nat) {
            None => None,
            Some((vs, mid)) => match parse_value(s, mid) {
                None => None,
                Some((v, e)) => Some((vs.push(v), e)),
            },
        }
    }
}

pub proof fn lemma_values_parse(s: Seq<u8>, pos: int, vs: Seq<ValueView>)
    requires
        values_ok(vs),
        holds_at(s, pos, values_bytes(vs)),
    ensures
        parse_values(s, pos, vs.len()) == Some((vs, pos + values_bytes(vs).len())),
    decreases vs.len(),
{
    if vs.len() > 0 {
        let before = vs.drop_last();
        lemma_holds_split(s, pos, values_bytes(before), value_bytes(vs.last()));
        lemma_values_parse(s, pos, before);
        lemma_value_parse(s, pos + values_bytes(before).len(), vs.last());
        assert(before.push(vs.last()) =~= vs);
    }
}

pub proof fn lemma_values_exact(s: Seq<u8>, pos: int, n: nat)
    requires
        parse_values(s, pos, n) is Some,
    ensures
        parse_values(s, pos, n) matches Some((vs, e)) && vs.len() == n && values_ok(vs)
            && holds_at(s, pos, values_bytes(vs)) && e == pos + values_bytes(vs).len(),
    decreases n,
{
    if n == 0 {
        assert(s.subrange(pos, pos) =~= Seq::<u8>::empty());
    } else {
        lemma_values_exact(s, pos, (n - 1) as nat);
        let (before, mid) = parse_values(s, pos, (n - 1) as nat)->0;
        lemma_value_exact(s, mid);
        let (v, e) = parse_value(s, mid)->0;
        assert(before.push(v).drop_last() =~= before);
        lemma_holds_split(s, pos, values_bytes(before), value_bytes(v));
    }
}

/// `String::from_utf8` of the standard library: the text that the bytes
/// spell in UTF-8, and nothing where they spell none.
#[verifier::external_body]
fn text_of_utf8(bytes: Vec<u8>) -> (r: Option<String>)
    ensures
        r is Some <==> valid_utf8(bytes@),
        r matches Some(t) ==> t@ == decode_utf8(bytes@),
{
    String::from_utf8(bytes).ok()
}

/// The text that the bytes from `from` to `to` spell.
pub(crate) fn read_utf8(bytes: &[u8], from: usize, to: usize) -> (r: Option<String>)
    requires
        from <= to <= bytes@.len(),
    ensures
        r is Some <==> valid_utf8(bytes@.subrange(from as int, to as int)),
        r matches Some(t) ==> t@ == decode_utf8(bytes@.subrange(from as int, to as int)),
{
    text_of_utf8(slice_to_vec(slice_subrange(bytes, from, to)))
}

/// Appends the form of a text.
pub fn put_text(out: &mut Vec<u8>, t: &str)
    ensures
        final(out)@ == old(out)@ + text(t@),
        text_ok(t@),
{
    let b = t.as_bytes();
    put_u64(out, b.len() as u64);
    put_bytes(out, b);
    assert(out@ =~= old(out)@ + text(t@));
}

/// Reads a text at `pos`.
pub fn take_text(bytes: &[u8], pos: usize) -> (r: Option<(String, usize)>)
    ensures
        match r {
            Some((t, e)) => parse_text(bytes@, pos as int) == Some((t@, e as int)),
            None => parse_text(bytes@, pos as int) is None,
        },
{
    match get_u64(bytes, pos) {
        None => None,
        Some(n) => {
            let room: usize = bytes.len() - pos - 8;
            if n > room as u64 {
                return None;
            }
            let from: usize = pos + 8;
            let to: usize = from + n as usize;
            match read_utf8(bytes, from, to) {
                None => None,
                Some(t) => Some((t, to)),
            }
        },
    }
}

/// Appends the form of a value.
pub fn put_value(out: &mut Vec<u8>, v: &DataValue)
    ensures
        final(out)@ == old(out)@ + value_bytes(v@),
        value_ok(v@),
{
    match v {
        DataValue::Null => {
            out.push(0);
        },
        DataValue::Boolean(None) => {
            out.push(1);
            out.push(0);
        },
        DataValue::Boolean(Some(b)) => {
            out.push(1);
            out.push(1);
            out.push(if *b { 1 } else { 0 });
        },
        DataValue::Int32(None) => {
            out.push(2);
            out.push(0);
        },
        DataValue::Int32(Some(x)) => {
            out.push(2);
            out.push(1);
            put_u32(out, ((*x as i64) + 0x8000_0000) as u32);
        },
        DataValue::Int64(None) => {
            out.push(3);
            out.push(0);
        },
        DataValue::Int64(Some(x)) => {
            out.push(3);
            out.push(1);
            let u: u64 = if *x < 0 {
                (*x + 0x7fff_ffff_ffff_ffff + 1) as u64
            } else {
                (*x as u64) + 0x8000_0000_0000_0000
            };
            put_u64(out, u);
        },
        DataValue::Utf8(None) => {
            out.push(4);
            out.push(0);
        },
        DataValue::Utf8(Some(t)) => {
            out.push(4);
            out.push(1);
            put_text(out, t.as_str());
        },
    }
    assert(out@ =~= old(out)@ + value_bytes(v@));
}

/// Reads a value at `pos`.
pub fn take_value(bytes: &[u8], pos: usize) -> (r: Option<(DataValue, usize)>)
    ensures
        match r {
            Some((v, e)) => parse_value(bytes@, pos as int) == Some((v@, e as int)),
            None => parse_value(bytes@, pos as int) is None,
        },
{
    if pos >= bytes.len() {
        return None;
    }
    let kind = bytes[pos];
    if kind == 0 {
        return Some((DataValue::Null, pos + 1));
    }
    if kind > 4 || bytes.len() - pos < 2 || bytes[pos + 1] > 1 {
        return None;
    }
    if bytes[pos + 1] == 0 {
        let v = if kind == 1 {
            DataValue::Boolean(None)
        } else if kind == 2 {
            DataValue::Int32(None)
        } else if kind == 3 {
            DataValue::Int64(None)
        } else {
            DataValue::Utf8(None)
        };
        return Some((v, pos + 2));
    }
    if kind == 1 {
        if bytes.len() - pos > 2 && bytes[pos + 2] <= 1 {
            Some((DataValue::Boolean(Some(bytes[pos + 2] == 1)), pos + 3))
        } else {
            None
        }
    } else if kind == 2 {
        match get_u32(bytes, pos + 2) {
            Some(u) => Some((DataValue::Int32(Some(((u as i64) - 0x8000_0000) as i32)), pos + 6)),
            None => None,
        }
    } else if kind == 3 {
        match get_u64(bytes, pos + 2) {
            Some(u) => {
                let x: i64 = if u >= 0x8000_0000_0000_0000 {
                    (u - 0x8000_0000_0000_0000) as i64
                } else {
                    (u as i64) - 0x7fff_ffff_ffff_ffff - 1
                };
                Some((DataValue::Int64(Some(x)), pos + 10))
            },
            None => None,
        }
    } else {
        match take_text(bytes, pos + 2) {
            Some((t, e)) => Some((DataValue::Utf8(Some(t)), e)),
            None => None,
        }
    }
}

/// Appends the forms of the values, in order.
pub fn put_values(out: &mut Vec<u8>, vs: &Vec<DataValue>)
    ensures
        final(out)@ == old(out)@ + values_bytes(crate::types::value::views(vs@)),
        values_ok(crate::types::value::views(vs@)),
{
    let ghost all = crate::types::value::views(vs@);
    let mut i: usize = 0;
    while i < vs.len()
        invariant
            i <= vs@.len(),
            all == crate::types::value::views(vs@),
            out@ == old(out)@ + values_bytes(all.take(i as int)),
            values_ok(all.take(i as int)),
        decreases vs@.len() - i,
    {
        put_value(out, &vs[i]);
        proof {
            let next = all.take(i + 1);
            assert(next.drop_last() =~= all.take(i as int));
            assert(next.last() == vs@[i as int]@);
            assert(out@ =~= old(out)@ + values_bytes(next));
            assert forall|k: int| 0 <= k < next.len() implies value_ok(#[trigger] next[k]) by {
                if k < i {
                    assert(next[k] == all.take(i as int)[k]);
                }
            }
        }
        i += 1;
    }
    assert(all.take(i as int) =~= all);
}

/// Reads `n` values from `pos`.
pub fn take_values(bytes: &[u8], pos: usize, n: usize) -> (r: Option<(Vec<DataValue>, usize)>)
    ensures
        match r {
            Some((vs, e)) => parse_values(bytes@, pos as int, n as nat) == Some(
                (crate::types::value::views(vs@), e as int),
            ),
            None => parse_values(bytes@, pos as int, n as nat) is None,
        },
{
    if pos > bytes.len() {
        proof {
            lemma_values_start(bytes@, pos as int, n as nat);
        }
        return None;
    }
    let mut vs: Vec<DataValue> = Vec::new();
    let mut at: usize = pos;
    let mut i: usize = 0;
    assert(crate::types::value::views(vs@) =~= Seq::empty());
    while i < n
        invariant
            i <= n,
            at <= bytes@.len(),
            parse_values(bytes@, pos as int, i as nat) == Some(
                (crate::types::value::views(vs@), at as int),
            ),
        decreases n - i,
    {
        match take_value(bytes, at) {
            None => {
                proof {
                    lemma_values_stop(bytes@, pos as int, (i + 1) as nat, n as nat);
                }
                return None;
            },
            Some((v, e)) => {
                proof {
                    lemma_value_exact(bytes@, at as int);
                    assert(crate::types::value::views(vs@).push(v@)
                        =~= crate::types::value::views(vs@.push(v)));
                }
                vs.push(v);
                at = e;
            },
        }
        i += 1;
    }
    Some((vs, at))
}

/// Nothing is read from outside the bytes.
pub proof fn lemma_values_start(s: Seq<u8>, pos: int, n: nat)
    requires
        pos < 0 || pos > s.len(),
    ensures
        parse_values(s, pos, n) is None,
    decreases n,
{
    if n > 0 {
        lemma_values_start(s, pos, (n - 1) as nat);
    }
}

/// Where fewer values cannot be read, more cannot be either.
pub proof fn lemma_values_stop(s: Seq<u8>, pos: int, k: nat, n: nat)
    requires
        k <= n,
        parse_values(s, pos, k) is None,
    ensures
        parse_values(s, pos, n) is None,
    decreases n,
{
    if k < n {
        lemma_values_stop(s, pos, k, (n - 1) as nat);
    }
}

} // verus!

verus! {

/// The text read at `pos`.
pub open spec fn text_at(s: Seq<u8>, pos: int) -> Seq<char> {
    match parse_text(s, pos) {
        Some((t, _)) => t,
        None => Seq::empty(),
    }
}

/// The value read at `pos`.
pub open spec fn value_at(s: Seq<u8>, pos: int) -> ValueView {
    match parse_value(s, pos) {
        Some((v, _)) => v,
        None => ValueView::Null,
    }
}

} // verus!
