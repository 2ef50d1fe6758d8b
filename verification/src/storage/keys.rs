//! The keyspace: five families of keys, each table's part of a family in a
//! range of its own.
//!
//! A key starts with the byte of its family. The keys of the table
//! directory go on with a zero byte and the table's name. All others go on
//! with the form of the table's name, a zero byte, and what tells the entry
//! from the others of its table. The range of a family and table runs from
//! that much with the zero byte to the same with a one in its place.
use crate::storage::order::{
    in_range, lemma_inside, lemma_parted_extend, lemma_parted_outside, lemma_parted_shift,
    lemma_same_length_parted, part_at, parted,
};
use crate::storage::value_codec::{put_text, text, text_ok, value_bytes, values_bytes};
use crate::storage::wire::{be32, be64, holds_at, lemma_be32_at, lemma_be64_at, put_u32};
use crate::types::value::ValueView;
use vstd::prelude::*;
use vstd::string::StringSliceAdditionalSpecFns;
use vstd::utf8::{encode_utf8, encode_utf8_decode_utf8};

verus! {

/// The table directory.
pub const ROOT: u8 = 1;

/// Column descriptions.
pub const COLUMN: u8 = 2;

/// Index descriptions.
pub const INDEX_META: u8 = 3;

/// Rows.
pub const TUPLE: u8 = 4;

/// Index entries.
pub const INDEX: u8 = 5;

/// What all keys of a family and table start with, before the zero byte.
pub open spec fn prefix(family: u8, table: Seq<char>) -> Seq<u8> {
    if family == ROOT {
        seq![ROOT]
    } else {
        seq![family] + text(table)
    }
}

/// The least key of a family and table.
pub open spec fn family_min(family: u8, table: Seq<char>) -> Seq<u8> {
    prefix(family, table) + seq![0u8]
}

/// A bound above every key of a family and table, itself no key.
pub open spec fn family_max(family: u8, table: Seq<char>) -> Seq<u8> {
    prefix(family, table) + seq![1u8]
}

/// The key of a table in the directory.
pub open spec fn root_key(table: Seq<char>) -> Seq<u8> {
    family_min(ROOT, table) + encode_utf8(table)
}

pub open spec fn column_key(table: Seq<char>, id: u32) -> Seq<u8> {
    family_min(COLUMN, table) + be32(id)
}

pub open spec fn index_meta_key(table: Seq<char>, id: u32) -> Seq<u8> {
    family_min(INDEX_META, table) + be32(id)
}

/// The key of the row whose primary key value is `id`.
pub open spec fn tuple_key(table: Seq<char>, id: ValueView) -> Seq<u8> {
    family_min(TUPLE, table) + value_bytes(id)
}

/// What the keys of one index start with, before the zero byte.
pub open spec fn index_prefix(table: Seq<char>, index: u32) -> Seq<u8> {
    family_min(INDEX, table) + be32(index)
}

/// The key of the entry of an index for the given values of its columns.
pub open spec fn index_key(table: Seq<char>, index: u32, values: Seq<ValueView>) -> Seq<u8> {
    index_prefix(table, index) + seq![0u8] + values_bytes(values)
}

pub open spec fn index_min(table: Seq<char>, index: u32) -> Seq<u8> {
    index_prefix(table, index) + seq![0u8]
}

pub open spec fn index_max(table: Seq<char>, index: u32) -> Seq<u8> {
    index_prefix(table, index) + seq![1u8]
}

/// `k` lies in the range of the family and table.
pub open spec fn in_family(k: Seq<u8>, family: u8, table: Seq<char>) -> bool {
    in_range(k, family_min(family, table), family_max(family, table))
}

/// `k` is a key of the family and table: it starts with their least key.
pub open spec fn key_of(k: Seq<u8>, family: u8, table: Seq<char>) -> bool {
    holds_at(k, 0, family_min(family, table))
}

/// The forms of two different texts part.
pub proof fn lemma_text_parted(a: Seq<char>, b: Seq<char>)
    requires
        text_ok(a),
        text_ok(b),
        a != b,
    ensures
        parted(text(a), text(b)),
{
    let x = encode_utf8(a);
    let y = encode_utf8(b);
    encode_utf8_decode_utf8(a);
    encode_utf8_decode_utf8(b);
    assert(x != y);
    let hx = be64(x.len() as u64);
    let hy = be64(y.len() as u64);
    if x.len() == y.len() {
        lemma_same_length_parted(x, y);
        lemma_parted_shift(hx, x, y);
    } else {
        if hx == hy {
            assert(hx.subrange(0, 8) =~= hx);
            lemma_be64_at(hx, 0, x.len() as u64);
            lemma_be64_at(hx, 0, y.len() as u64);
        }
        lemma_same_length_parted(hx, hy);
        lemma_parted_extend(hx, hy, x, y);
    }
}

/// The beginnings of the keys of two families, or of two tables in one
/// family other than the directory, part.
pub proof fn lemma_prefix_parted(f: u8, t: Seq<char>, g: u8, u: Seq<char>)
    requires
        text_ok(t),
        text_ok(u),
        f != g || (f != ROOT && t != u),
    ensures
        parted(prefix(f, t), prefix(g, u)),
{
    let p = prefix(f, t);
    let q = prefix(g, u);
    if f != g {
        assert(part_at(p, q, 0));
    } else {
        lemma_text_parted(t, u);
        lemma_parted_shift(seq![f], text(t), text(u));
    }
}

/// Every key of a family and table lies in their range.
pub proof fn lemma_key_in_family(k: Seq<u8>, f: u8, t: Seq<char>)
    requires
        key_of(k, f, t),
    ensures
        in_family(k, f, t),
{
    let m = family_min(f, t);
    let rest = k.subrange(m.len() as int, k.len() as int);
    assert(k =~= k.subrange(0, m.len() as int) + rest);
    lemma_inside(prefix(f, t), rest);
}

/// A key of one family and table lies in the range of no other family, and
/// of no other table.
pub proof fn lemma_key_not_in_other(k: Seq<u8>, f: u8, t: Seq<char>, g: u8, u: Seq<char>)
    requires
        key_of(k, f, t),
        text_ok(t),
        text_ok(u),
        f != g || (f != ROOT && t != u),
    ensures
        !in_family(k, g, u),
{
    let m = family_min(f, t);
    let rest = k.subrange(m.len() as int, k.len() as int);
    assert(k =~= prefix(f, t) + (seq![0u8] + rest)) by {
        assert(k =~= k.subrange(0, m.len() as int) + rest);
    }
    lemma_prefix_parted(f, t, g, u);
    lemma_parted_extend(prefix(f, t), prefix(g, u), seq![0u8] + rest, Seq::empty());
    assert(prefix(g, u) + Seq::<u8>::empty() =~= prefix(g, u));
    lemma_parted_outside(k, prefix(g, u), seq![0u8], seq![1u8]);
}

/// Every key of an index lies in that index's range, within the range of
/// all index entries of its table.
pub proof fn lemma_index_key_inside(t: Seq<char>, index: u32, values: Seq<ValueView>)
    ensures
        in_range(index_key(t, index, values), index_min(t, index), index_max(t, index)),
        key_of(index_key(t, index, values), INDEX, t),
{
    lemma_inside(index_prefix(t, index), values_bytes(values));
    let k = index_key(t, index, values);
    let m = family_min(INDEX, t);
    assert(k.subrange(0, m.len() as int) =~= m);
}

/// No key of one index lies in the range of another index of the table.
pub proof fn lemma_index_key_outside(t: Seq<char>, index: u32, values: Seq<ValueView>, other: u32)
    requires
        index != other,
    ensures
        !in_range(index_key(t, index, values), index_min(t, other), index_max(t, other)),
{
    let a = be32(index);
    let b = be32(other);
    if a == b {
        assert(a.subrange(0, 4) =~= a);
        lemma_be32_at(a, 0, index);
        lemma_be32_at(a, 0, other);
    }
    lemma_same_length_parted(a, b);
    lemma_parted_shift(family_min(INDEX, t), a, b);
    lemma_parted_extend(
        index_prefix(t, index),
        index_prefix(t, other),
        seq![0u8] + values_bytes(values),
        Seq::empty(),
    );
    assert(index_prefix(t, other) + Seq::<u8>::empty() =~= index_prefix(t, other));
    assert(index_key(t, index, values) =~= index_prefix(t, index) + (seq![0u8] + values_bytes(
        values,
    )));
    lemma_parted_outside(
        index_key(t, index, values),
        index_prefix(t, other),
        seq![0u8],
        seq![1u8],
    );
}

/// The beginning of the keys of a family and table.
fn start(family: u8, table: &str) -> (out: Vec<u8>)
    requires
        family != ROOT,
    ensures
        out@ == prefix(family, table@),
        text_ok(table@),
{
    let mut out: Vec<u8> = Vec::new();
    out.push(family);
    put_text(&mut out, table);
    out
}

/// The least key of a family and table.
pub fn least_key(family: u8, table: &str) -> (out: Vec<u8>)
    ensures
        out@ == family_min(family, table@),
        family != ROOT ==> text_ok(table@),
{
    let mut out: Vec<u8> = if family == ROOT {
        let mut v: Vec<u8> = Vec::new();
        v.push(ROOT);
        v
    } else {
        start(family, table)
    };
    out.push(0);
    out
}

/// The two ends of the range of a family and table.
pub fn family_bound(family: u8, table: &str) -> (r: (Vec<u8>, Vec<u8>))
    ensures
        r.0@ == family_min(family, table@),
        r.1@ == family_max(family, table@),
{
    let min = least_key(family, table);
    let mut max: Vec<u8> = if family == ROOT {
        let mut v: Vec<u8> = Vec::new();
        v.push(ROOT);
        v
    } else {
        start(family, table)
    };
    max.push(1);
    (min, max)
}

/// The beginning of the keys of one index.
pub fn index_start(table: &str, index: u32) -> (out: Vec<u8>)
    ensures
        out@ == index_prefix(table@, index),
        text_ok(table@),
{
    let mut out = least_key(INDEX, table);
    put_u32(&mut out, index);
    out
}

} // verus!
