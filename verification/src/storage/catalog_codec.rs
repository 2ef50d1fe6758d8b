//! The payloads that describe columns and indexes.
use crate::catalog::column::{ColumnCatalog, ColumnDesc, ColumnDescView, ColumnView};
use crate::catalog::table::{IndexMeta, IndexMetaView};
use crate::storage::value_codec::{
    lemma_text_exact, lemma_text_parse, lemma_value_exact, lemma_value_parse, parse_text, text_at,
    value_at,
    parse_value, put_text, put_value, take_text, take_value, text, text_ok, value_bytes, value_ok,
};
use crate::storage::wire::{
    be32, be32_at, be64, be64_at, flag, get_u32, get_u64, holds_at, lemma_be32_at, lemma_be32_of,
    lemma_be64_at, lemma_be64_of, lemma_holds_split, put_u32, put_u64,
};
use crate::types::value::{DataValue, LogicalType, ValueView};
use vstd::prelude::*;

verus! {

/// The byte that stands for a logical type.
pub open spec fn type_tag(t: LogicalType) -> u8 {
    match t {
        LogicalType::SqlNull => 0,
        LogicalType::Boolean => 1,
        LogicalType::Integer => 2,
        LogicalType::Bigint => 3,
        LogicalType::Varchar => 4,
    }
}

pub open spec fn type_of_tag(b: u8) -> Option<LogicalType> {
    if b == 0 {
        Some(LogicalType::SqlNull)
    } else if b == 1 {
        Some(LogicalType::Boolean)
    } else if b == 2 {
        Some(LogicalType::Integer)
    } else if b == 3 {
        Some(LogicalType::Bigint)
    } else if b == 4 {
        Some(LogicalType::Varchar)
    } else {
        None
    }
}

/// The form of a column number that may be missing.
pub open spec fn opt_id_bytes(o: Option<u32>) -> Seq<u8> {
    match o {
        None => seq![0u8],
        Some(x) => seq![1u8] + be32(x),
    }
}

pub open spec fn parse_opt_id(s: Seq<u8>, pos: int) -> Option<(Option<u32>, int)> {
    if pos < 0 || pos >= s.len() {
        None
    } else if s[pos] == 0 {
        Some((None, pos + 1))
    } else if s[pos] == 1 && pos + 5 <= s.len() {
        Some((Some(be32_at(s, pos + 1)), pos + 5))
    } else {
        None
    }
}

/// The form of a text that may be missing.
pub open spec fn opt_text_bytes(o: Option<Seq<char>>) -> Seq<u8> {
    match o {
        None => seq![0u8],
        Some(t) => seq![1u8] + text(t),
    }
}

pub open spec fn parse_opt_text(s: Seq<u8>, pos: int) -> Option<(Option<Seq<char>>, int)> {
    if pos < 0 || pos >= s.len() {
        None
    } else if s[pos] == 0 {
        Some((None, pos + 1))
    } else if s[pos] == 1 {
        match parse_text(s, pos + 1) {
            Some((t, e)) => Some((Some(t), e)),
            None => None,
        }
    } else {
        None
    }
}

/// The form of a value that may be missing.
pub open spec fn opt_value_bytes(o: Option<ValueView>) -> Seq<u8> {
    match o {
        None => seq![0u8],
        Some(v) => seq![1u8] + value_bytes(v),
    }
}

pub open spec fn parse_opt_value(s: Seq<u8>, pos: int) -> Option<(Option<ValueView>, int)> {
    if pos < 0 || pos >= s.len() {
        None
    } else if s[pos] == 0 {
        Some((None, pos + 1))
    } else if s[pos] == 1 {
        match parse_value(s, pos + 1) {
            Some((v, e)) => Some((Some(v), e)),
            None => None,
        }
    } else {
        None
    }
}

/// The four bytes for what a column may hold: whether it may be null, its
/// type, whether it is the primary key, whether it is unique.
pub open spec fn traits_bytes(c: ColumnView) -> Seq<u8> {
    seq![
        flag(c.nullable),
        type_tag(c.desc.column_datatype),
        flag(c.desc.is_primary),
        flag(c.desc.is_unique),
    ]
}

pub open spec fn traits_at(s: Seq<u8>, pos: int) -> bool {
    &&& 0 <= pos
    &&& pos + 4 <= s.len()
    &&& s[pos] <= 1
    &&& type_of_tag(s[pos + 1]) is Some
    &&& s[pos + 2] <= 1
    &&& s[pos + 3] <= 1
}

/// The payload that describes a column.
pub open spec fn column_bytes(c: ColumnView) -> Seq<u8> {
    opt_id_bytes(c.id) + text(c.name) + opt_text_bytes(c.table_name) + traits_bytes(c)
        + opt_value_bytes(c.desc.default)
}

/// Every text in the column's description is short enough to be written.
pub open spec fn column_ok(c: ColumnView) -> bool {
    &&& text_ok(c.name)
    &&& c.table_name matches Some(t) ==> text_ok(t)
    &&& c.desc.default matches Some(v) ==> value_ok(v)
}

/// The column whose description starts at `pos`, and where it ends.
pub open spec fn parse_column(s: Seq<u8>, pos: int) -> Option<(ColumnView, int)> {
    match parse_opt_id(s, pos) {
        None => None,
        Some((id, end1)) => match parse_text(s, end1) {
            None => None,
            Some((name, end2)) => match parse_opt_text(s, end2) {
                None => None,
                Some((table_name, end3)) => if !traits_at(s, end3) {
                    None
                } else {
                    match parse_opt_value(s, end3 + 4) {
                        None => None,
                        Some((default, end4)) => Some(
                            (
                                ColumnView {
                                    id,
                                    name,
                                    table_name,
                                    nullable: s[end3] == 1,
                                    desc: ColumnDescView {
                                        column_datatype: type_of_tag(s[end3 + 1])->0,
                                        is_primary: s[end3 + 2] == 1,
                                        is_unique: s[end3 + 3] == 1,
                                        default,
                                    },
                                },
                                end4,
                            ),
                        ),
                    }
                },
            },
        },
    }
}

/// The column that the whole of `s` describes.
pub open spec fn column_of_bytes(s: Seq<u8>) -> Option<ColumnView> {
    match parse_column(s, 0) {
        Some((c, e)) => if e == s.len() {
            Some(c)
        } else {
            None
        },
        None => None,
    }
}

proof fn lemma_opt_id_parse(s: Seq<u8>, pos: int, o: Option<u32>)
    requires
        holds_at(s, pos, opt_id_bytes(o)),
    ensures
        parse_opt_id(s, pos) == Some((o, pos + opt_id_bytes(o).len())),
{
    let w = s.subrange(pos, pos + opt_id_bytes(o).len());
    assert(w[0] == s[pos]);
    if let Some(x) = o {
        lemma_holds_split(s, pos, seq![1u8], be32(x));
        lemma_be32_at(s, pos + 1, x);
    }
}

proof fn lemma_opt_id_exact(s: Seq<u8>, pos: int)
    requires
        parse_opt_id(s, pos) is Some,
    ensures
        parse_opt_id(s, pos) matches Some((o, e)) && holds_at(s, pos, opt_id_bytes(o)) && e == pos
            + opt_id_bytes(o).len(),
{
    if s[pos] == 0 {
        assert(s.subrange(pos, pos + 1) =~= seq![0u8]);
    } else {
        lemma_be32_of(s, pos + 1);
        assert(s.subrange(pos, pos + 1) =~= seq![1u8]);
        lemma_holds_split(s, pos, seq![1u8], be32(be32_at(s, pos + 1)));
    }
}

proof fn lemma_opt_text_parse(s: Seq<u8>, pos: int, o: Option<Seq<char>>)
    requires
        o matches Some(t) ==> text_ok(t),
        holds_at(s, pos, opt_text_bytes(o)),
    ensures
        parse_opt_text(s, pos) == Some((o, pos + opt_text_bytes(o).len())),
{
    let w = s.subrange(pos, pos + opt_text_bytes(o).len());
    assert(w[0] == s[pos]);
    if let Some(t) = o {
        lemma_holds_split(s, pos, seq![1u8], text(t));
        lemma_text_parse(s, pos + 1, t);
    }
}

proof fn lemma_opt_text_exact(s: Seq<u8>, pos: int)
    requires
        parse_opt_text(s, pos) is Some,
    ensures
        parse_opt_text(s, pos) matches Some((o, e)) && holds_at(s, pos, opt_text_bytes(o)) && e
            == pos + opt_text_bytes(o).len() && (o matches Some(t) ==> text_ok(t)),
{
    if s[pos] == 0 {
        assert(s.subrange(pos, pos + 1) =~= seq![0u8]);
    } else {
        lemma_text_exact(s, pos + 1);
        assert(s.subrange(pos, pos + 1) =~= seq![1u8]);
        lemma_holds_split(s, pos, seq![1u8], text(text_at(s, pos + 1)));
    }
}

proof fn lemma_opt_value_parse(s: Seq<u8>, pos: int, o: Option<ValueView>)
    requires
        o matches Some(v) ==> value_ok(v),
        holds_at(s, pos, opt_value_bytes(o)),
    ensures
        parse_opt_value(s, pos) == Some((o, pos + opt_value_bytes(o).len())),
{
    let w = s.subrange(pos, pos + opt_value_bytes(o).len());
    assert(w[0] == s[pos]);
    if let Some(v) = o {
        lemma_holds_split(s, pos, seq![1u8], value_bytes(v));
        lemma_value_parse(s, pos + 1, v);
    }
}

proof fn lemma_opt_value_exact(s: Seq<u8>, pos: int)
    requires
        parse_opt_value(s, pos) is Some,
    ensures
        parse_opt_value(s, pos) matches Some((o, e)) && holds_at(s, pos, opt_value_bytes(o)) && e
            == pos + opt_value_bytes(o).len() && (o matches Some(v) ==> value_ok(v)),
{
    if s[pos] == 0 {
        assert(s.subrange(pos, pos + 1) =~= seq![0u8]);
    } else {
        lemma_value_exact(s, pos + 1);
        assert(s.subrange(pos, pos + 1) =~= seq![1u8]);
        lemma_holds_split(s, pos, seq![1u8], value_bytes(value_at(s, pos + 1)));
    }
}

/// Reading what was written gives the column back.
pub proof fn lemma_column_parse(s: Seq<u8>, pos: int, c: ColumnView)
    requires
        column_ok(c),
        holds_at(s, pos, column_bytes(c)),
    ensures
        parse_column(s, pos) == Some((c, pos + column_bytes(c).len())),
{
    let a = opt_id_bytes(c.id);
    let b = text(c.name);
    let d = opt_text_bytes(c.table_name);
    let t = traits_bytes(c);
    let v = opt_value_bytes(c.desc.default);
    lemma_holds_split(s, pos, a + b + d + t, v);
    lemma_holds_split(s, pos, a + b + d, t);
    lemma_holds_split(s, pos, a + b, d);
    lemma_holds_split(s, pos, a, b);
    lemma_opt_id_parse(s, pos, c.id);
    let end1 = pos + a.len();
    lemma_text_parse(s, end1, c.name);
    let end2 = end1 + b.len();
    lemma_opt_text_parse(s, end2, c.table_name);
    let end3 = end2 + d.len();
    let w = s.subrange(end3, end3 + 4);
    assert(w[0] == s[end3] && w[1] == s[end3 + 1] && w[2] == s[end3 + 2] && w[3] == s[end3 + 3]);
    lemma_opt_value_parse(s, end3 + 4, c.desc.default);
}

/// What is read was written: the bytes read are the column's payload.
pub proof fn lemma_column_exact(s: Seq<u8>, pos: int)
    requires
        parse_column(s, pos) is Some,
    ensures
        parse_column(s, pos) matches Some((c, e)) && column_ok(c) && holds_at(
            s,
            pos,
            column_bytes(c),
        ) && e == pos + column_bytes(c).len(),
{
    let (c, e) = parse_column(s, pos)->0;
    lemma_opt_id_exact(s, pos);
    let a = opt_id_bytes(c.id);
    let end1 = pos + a.len();
    lemma_text_exact(s, end1);
    let b = text(c.name);
    let end2 = end1 + b.len();
    lemma_opt_text_exact(s, end2);
    let d = opt_text_bytes(c.table_name);
    let end3 = end2 + d.len();
    let t = traits_bytes(c);
    assert(s.subrange(end3, end3 + 4) =~= t);
    lemma_opt_value_exact(s, end3 + 4);
    let v = opt_value_bytes(c.desc.default);
    lemma_holds_split(s, pos, a, b);
    lemma_holds_split(s, pos, a + b, d);
    lemma_holds_split(s, pos, a + b + d, t);
    lemma_holds_split(s, pos, a + b + d + t, v);
}

/// The column numbers of an index, each in four bytes.
pub open spec fn ids_bytes(ids: Seq<u32>) -> Seq<u8>
    decreases ids.len(),
{
    if ids.len() == 0 {
        Seq::empty()
    } else {
        ids_bytes(ids.drop_last()) + be32(ids.last())
    }
}

pub proof fn lemma_ids_len(ids: Seq<u32>)
    ensures
        ids_bytes(ids).len() == 4 * ids.len(),
    decreases ids.len(),
{
    if ids.len() > 0 {
        lemma_ids_len(ids.drop_last());
    }
}

/// The `n` numbers written from `pos` on.
pub open spec fn ids_at(s: Seq<u8>, pos: int, n: nat) -> Seq<u32> {
    Seq::new(n, |i: int| be32_at(s, pos + 4 * i))
}

proof fn lemma_ids_parse(s: Seq<u8>, pos: int, ids: Seq<u32>)
    requires
        holds_at(s, pos, ids_bytes(ids)),
    ensures
        ids_at(s, pos, ids.len()) == ids,
    decreases ids.len(),
{
    if ids.len() > 0 {
        let before = ids.drop_last();
        lemma_ids_len(before);
        lemma_holds_split(s, pos, ids_bytes(before), be32(ids.last()));
        lemma_ids_parse(s, pos, before);
        lemma_be32_at(s, pos + 4 * before.len(), ids.last());
        assert forall|i: int| 0 <= i < ids.len() implies ids_at(s, pos, ids.len())[i]
            == ids[i] by {
            if i < before.len() {
                assert(ids_at(s, pos, before.len())[i] == before[i]);
            }
        }
    }
    assert(ids_at(s, pos, ids.len()) =~= ids);
}

proof fn lemma_ids_exact(s: Seq<u8>, pos: int, n: nat)
    requires
        0 <= pos,
        pos + 4 * n <= s.len(),
    ensures
        holds_at(s, pos, ids_bytes(ids_at(s, pos, n))),
        ids_bytes(ids_at(s, pos, n)).len() == 4 * n,
    decreases n,
{
    let ids = ids_at(s, pos, n);
    lemma_ids_len(ids);
    if n == 0 {
        assert(s.subrange(pos, pos) =~= Seq::<u8>::empty());
    } else {
        let before = ids_at(s, pos, (n - 1) as nat);
        assert(ids.drop_last() =~= before);
        lemma_ids_exact(s, pos, (n - 1) as nat);
        lemma_be32_of(s, pos + 4 * (n - 1));
        lemma_holds_split(s, pos, ids_bytes(before), be32(ids.last()));
    }
}

/// The payload that describes an index.
pub open spec fn index_meta_bytes(m: IndexMetaView) -> Seq<u8> {
    be32(m.id) + be64(m.column_ids.len() as u64) + ids_bytes(m.column_ids) + text(m.name)
        + seq![flag(m.is_unique), flag(m.is_primary)]
}

/// The index's name and its list of columns are short enough to be written.
pub open spec fn index_meta_ok(m: IndexMetaView) -> bool {
    &&& text_ok(m.name)
    &&& m.column_ids.len() <= u64::MAX
}

/// The index that the whole of `s` describes.
pub open spec fn index_meta_of_bytes(s: Seq<u8>) -> Option<IndexMetaView> {
    if s.len() < 12 {
        None
    } else {
        let n = be64_at(s, 4) as int;
        if 12 + 4 * n > s.len() {
            None
        } else {
            match parse_text(s, 12 + 4 * n) {
                None => None,
                Some((name, e)) => if e + 2 == s.len() && s[e] <= 1 && s[e + 1] <= 1 {
                    Some(
                        IndexMetaView {
                            id: be32_at(s, 0),
                            column_ids: ids_at(s, 12, n as nat),
                            name,
                            is_unique: s[e] == 1,
                            is_primary: s[e + 1] == 1,
                        },
                    )
                } else {
                    None
                },
            }
        }
    }
}

/// Reading what was written gives the index back.
pub proof fn lemma_index_meta_round_trip(m: IndexMetaView)
    requires
        index_meta_ok(m),
    ensures
        index_meta_of_bytes(index_meta_bytes(m)) == Some(m),
{
    let s = index_meta_bytes(m);
    let a = be32(m.id);
    let b = be64(m.column_ids.len() as u64);
    let c = ids_bytes(m.column_ids);
    let d = text(m.name);
    let f = seq![flag(m.is_unique), flag(m.is_primary)];
    lemma_ids_len(m.column_ids);
    assert(s.subrange(0, s.len() as int) =~= s);
    lemma_holds_split(s, 0, a + b + c + d, f);
    lemma_holds_split(s, 0, a + b + c, d);
    lemma_holds_split(s, 0, a + b, c);
    lemma_holds_split(s, 0, a, b);
    lemma_be32_at(s, 0, m.id);
    lemma_be64_at(s, 4, m.column_ids.len() as u64);
    lemma_ids_parse(s, 12, m.column_ids);
    lemma_text_parse(s, 12 + c.len() as int, m.name);
    let e = 12 + c.len() as int + d.len() as int;
    let w = s.subrange(e, e + 2);
    assert(w[0] == s[e] && w[1] == s[e + 1]);
}

/// What is read was written: the bytes are the payload of the index read.
pub proof fn lemma_index_meta_exact(s: Seq<u8>)
    requires
        index_meta_of_bytes(s) is Some,
    ensures
        index_meta_of_bytes(s) matches Some(m) && index_meta_ok(m) && index_meta_bytes(m) == s,
{
    let m = index_meta_of_bytes(s)->0;
    let n = be64_at(s, 4) as int;
    let a = be32(m.id);
    let b = be64(m.column_ids.len() as u64);
    let c = ids_bytes(m.column_ids);
    let d = text(m.name);
    let f = seq![flag(m.is_unique), flag(m.is_primary)];
    lemma_be32_of(s, 0);
    lemma_be64_of(s, 4);
    lemma_ids_exact(s, 12, n as nat);
    lemma_text_exact(s, 12 + 4 * n);
    let e = 12 + 4 * n + d.len() as int;
    assert(s.subrange(e, e + 2) =~= f);
    lemma_holds_split(s, 0, a, b);
    lemma_holds_split(s, 0, a + b, c);
    lemma_holds_split(s, 0, a + b + c, d);
    lemma_holds_split(s, 0, a + b + c + d, f);
    assert(s.subrange(0, s.len() as int) =~= s);
}

fn put_flag(out: &mut Vec<u8>, b: bool)
    ensures
        final(out)@ == old(out)@.push(flag(b)),
{
    out.push(if b { 1 } else { 0 });
}

fn tag_of_type(t: LogicalType) -> (r: u8)
    ensures
        r == type_tag(t),
{
    match t {
        LogicalType::SqlNull => 0,
        LogicalType::Boolean => 1,
        LogicalType::Integer => 2,
        LogicalType::Bigint => 3,
        LogicalType::Varchar => 4,
    }
}

fn type_from_tag(b: u8) -> (r: Option<LogicalType>)
    ensures
        r == type_of_tag(b),
{
    if b == 0 {
        Some(LogicalType::SqlNull)
    } else if b == 1 {
        Some(LogicalType::Boolean)
    } else if b == 2 {
        Some(LogicalType::Integer)
    } else if b == 3 {
        Some(LogicalType::Bigint)
    } else if b == 4 {
        Some(LogicalType::Varchar)
    } else {
        None
    }
}

fn put_opt_id(out: &mut Vec<u8>, id: Option<u32>)
    ensures
        final(out)@ == old(out)@ + opt_id_bytes(id),
{
    match id {
        None => out.push(0),
        Some(x) => {
            out.push(1);
            put_u32(out, x);
        },
    }
    assert(out@ =~= old(out)@ + opt_id_bytes(id));
}

fn put_opt_text(out: &mut Vec<u8>, t: &Option<String>)
    ensures
        final(out)@ == old(out)@ + opt_text_bytes(
            match *t {
                Some(x) => Some(x@),
                None => None,
            },
        ),
        *t matches Some(x) ==> text_ok(x@),
{
    match t {
        None => out.push(0),
        Some(x) => {
            out.push(1);
            put_text(out, x.as_str());
        },
    }
    assert(out@ =~= old(out)@ + opt_text_bytes(
        match *t {
            Some(x) => Some(x@),
            None => None,
        },
    ));
}

fn put_opt_value(out: &mut Vec<u8>, v: &Option<DataValue>)
    ensures
        final(out)@ == old(out)@ + opt_value_bytes(
            match *v {
                Some(x) => Some(x@),
                None => None,
            },
        ),
        *v matches Some(x) ==> value_ok(x@),
{
    match v {
        None => out.push(0),
        Some(x) => {
            out.push(1);
            put_value(out, x);
        },
    }
    assert(out@ =~= old(out)@ + opt_value_bytes(
        match *v {
            Some(x) => Some(x@),
            None => None,
        },
    ));
}

fn put_traits(out: &mut Vec<u8>, c: &ColumnCatalog)
    ensures
        final(out)@ == old(out)@ + traits_bytes(c@),
{
    put_flag(out, c.nullable);
    out.push(tag_of_type(c.desc.column_datatype));
    put_flag(out, c.desc.is_primary);
    put_flag(out, c.desc.is_unique);
    assert(out@ =~= old(out)@ + traits_bytes(c@));
}

/// The payload of a column.
pub fn write_column(c: &ColumnCatalog) -> (out: Vec<u8>)
    ensures
        out@ == column_bytes(c@),
        column_ok(c@),
{
    let mut out: Vec<u8> = Vec::new();
    put_opt_id(&mut out, c.id);
    put_text(&mut out, c.name.as_str());
    put_opt_text(&mut out, &c.table_name);
    put_traits(&mut out, c);
    put_opt_value(&mut out, &c.desc.default);
    assert(out@ =~= column_bytes(c@));
    out
}

/// The column that the bytes describe, if they describe one.
pub fn read_column(bytes: &[u8]) -> (r: Option<ColumnCatalog>)
    ensures
        match r {
            Some(c) => column_of_bytes(bytes@) == Some(c@),
            None => column_of_bytes(bytes@) is None,
        },
{
    if bytes.len() == 0 {
        return None;
    }
    let (id, end1): (Option<u32>, usize) = if bytes[0] == 0 {
        (None, 1)
    } else if bytes[0] == 1 {
        match get_u32(bytes, 1) {
            Some(x) => (Some(x), 5),
            None => {
                return None;
            },
        }
    } else {
        return None;
    };
    let (name, end2) = match take_text(bytes, end1) {
        Some(x) => x,
        None => {
            return None;
        },
    };
    proof {
        lemma_text_exact(bytes@, end1 as int);
    }
    if end2 >= bytes.len() {
        return None;
    }
    let (table_name, end3): (Option<String>, usize) = if bytes[end2] == 0 {
        (None, end2 + 1)
    } else if bytes[end2] == 1 {
        match take_text(bytes, end2 + 1) {
            Some((t, e)) => {
                proof {
                    lemma_text_exact(bytes@, end2 + 1);
                }
                (Some(t), e)
            },
            None => {
                return None;
            },
        }
    } else {
        return None;
    };
    if bytes.len() - end3 < 4 || bytes[end3] > 1 || bytes[end3 + 2] > 1 || bytes[end3 + 3] > 1 {
        return None;
    }
    let ty = match type_from_tag(bytes[end3 + 1]) {
        Some(t) => t,
        None => {
            return None;
        },
    };
    let end4: usize = end3 + 4;
    if end4 >= bytes.len() {
        return None;
    }
    let (default, end5): (Option<DataValue>, usize) = if bytes[end4] == 0 {
        (None, end4 + 1)
    } else if bytes[end4] == 1 {
        match take_value(bytes, end4 + 1) {
            Some((v, e)) => (Some(v), e),
            None => {
                return None;
            },
        }
    } else {
        return None;
    };
    if end5 != bytes.len() {
        return None;
    }
    Some(
        ColumnCatalog {
            id,
            name,
            table_name,
            nullable: bytes[end3] == 1,
            desc: ColumnDesc {
                column_datatype: ty,
                is_primary: bytes[end3 + 2] == 1,
                is_unique: bytes[end3 + 3] == 1,
                default,
            },
        },
    )
}

/// The payload of an index description.
pub fn write_index_meta(m: &IndexMeta) -> (out: Vec<u8>)
    ensures
        out@ == index_meta_bytes(m@),
        index_meta_ok(m@),
{
    let mut out: Vec<u8> = Vec::new();
    put_u32(&mut out, m.id);
    put_u64(&mut out, m.column_ids.len() as u64);
    let ghost s0 = out@;
    let mut i: usize = 0;
    while i < m.column_ids.len()
        invariant
            i <= m.column_ids@.len(),
            out@ == s0 + ids_bytes(m.column_ids@.take(i as int)),
        decreases m.column_ids@.len() - i,
    {
        put_u32(&mut out, m.column_ids[i]);
        proof {
            let next = m.column_ids@.take(i + 1);
            assert(next.drop_last() =~= m.column_ids@.take(i as int));
            assert(out@ =~= s0 + ids_bytes(next));
        }
        i += 1;
    }
    assert(m.column_ids@.take(i as int) =~= m.column_ids@);
    put_text(&mut out, m.name.as_str());
    let ghost s1 = out@;
    put_flag(&mut out, m.is_unique);
    put_flag(&mut out, m.is_primary);
    assert(out@ =~= s1 + seq![flag(m.is_unique), flag(m.is_primary)]);
    out
}

/// The index that the bytes describe, if they describe one.
pub fn read_index_meta(bytes: &[u8]) -> (r: Option<IndexMeta>)
    ensures
        match r {
            Some(m) => index_meta_of_bytes(bytes@) == Some(m@),
            None => index_meta_of_bytes(bytes@) is None,
        },
{
    let id = match get_u32(bytes, 0) {
        Some(x) => x,
        None => {
            return None;
        },
    };
    let n = match get_u64(bytes, 4) {
        Some(x) => x,
        None => {
            return None;
        },
    };
    if n > ((bytes.len() - 12) / 4) as u64 {
        return None;
    }
    let n: usize = n as usize;
    assert(12 + 4 * n <= bytes@.len());
    let mut column_ids: Vec<u32> = Vec::new();
    let mut i: usize = 0;
    while i < n
        invariant
            i <= n,
            12 + 4 * n <= bytes@.len() <= usize::MAX,
            column_ids@ == ids_at(bytes@, 12, i as nat),
        decreases n - i,
    {
        match get_u32(bytes, 12 + 4 * i) {
            Some(x) => {
                column_ids.push(x);
                assert(column_ids@ =~= ids_at(bytes@, 12, (i + 1) as nat));
            },
            None => {
                return None;
            },
        }
        i += 1;
    }
    let (name, e) = match take_text(bytes, 12 + 4 * n) {
        Some(x) => x,
        None => {
            return None;
        },
    };
    proof {
        lemma_text_exact(bytes@, 12 + 4 * n);
    }
    if bytes.len() - e != 2 || bytes[e] > 1 || bytes[e + 1] > 1 {
        return None;
    }
    Some(
        IndexMeta { id, column_ids, name, is_unique: bytes[e] == 1, is_primary: bytes[e + 1] == 1 },
    )
}

} // verus!
