//! The table codec: catalog objects, rows and index entries as keys and
//! payloads of the flat keyspace, and back.
use crate::catalog::column::{ColumnCatalog, ColumnView};
use crate::catalog::table::IndexMeta;
use crate::storage::catalog_codec::{
    column_bytes, column_of_bytes, column_ok, index_meta_bytes, index_meta_of_bytes, index_meta_ok,
    lemma_column_exact, lemma_column_parse, read_column, read_index_meta, write_column,
    write_index_meta,
};
use crate::storage::keys::{
    column_key, family_bound, family_max, family_min, in_family, index_key, index_max,
    index_meta_key, index_min, index_start, key_of, least_key, lemma_key_in_family,
    lemma_key_not_in_other, root_key, tuple_key, COLUMN, INDEX, INDEX_META, ROOT, TUPLE,
};
use crate::storage::keys::lemma_index_key_inside;
use crate::storage::value_codec::{
    value_bytes,
    lemma_values_exact, lemma_values_parse, parse_values, put_value, put_values, read_utf8,
    take_values, text_ok, values_bytes, values_ok,
};
use crate::storage::wire::{
    be32,
    be64, be64_at, get_u64, lemma_be64_at, lemma_be64_of, lemma_holds_appended, lemma_holds_split,
    put_bytes, put_u32, put_u64,
};
use crate::types::tuple::{primary_index, primary_value, types_match, Index, Tuple, TupleView};
use crate::types::value::{views, DataValue, TupleId, ValueView};
use vstd::prelude::*;
use vstd::string::StringSliceAdditionalSpecFns;
use vstd::utf8::{
    decode_utf8, decode_utf8_encode_utf8, encode_utf8, encode_utf8_decode_utf8,
    encode_utf8_valid_utf8, valid_utf8,
};

verus! {

/// Why a value could not be written, or bytes could not be read.
#[derive(Clone, Copy, Debug, PartialEq, Eq, Structural)]
pub enum CodecError {
    /// The value does not fit what it is declared to be.
    EncodeError,
    /// The bytes are cut short or are no payload of the kind asked for.
    DecodeError,
}

/// The payload of a row: the forms of its values, in the columns' order.
pub open spec fn tuple_bytes(values: Seq<ValueView>) -> Seq<u8> {
    values_bytes(values)
}

/// The row of the given columns that the whole of `s` holds.
pub open spec fn tuple_of_bytes(cols: Seq<ColumnView>, s: Seq<u8>) -> Option<TupleView> {
    match parse_values(s, 0, cols.len()) {
        None => None,
        Some((values, e)) => if e == s.len() && types_match(cols, values) {
            Some(TupleView { id: primary_value(cols, values), columns: cols, values })
        } else {
            None
        },
    }
}

/// The payload of an index entry: the rows' primary key values behind
/// their count.
pub open spec fn entry_bytes(ids: Seq<ValueView>) -> Seq<u8> {
    be64(ids.len() as u64) + values_bytes(ids)
}

pub open spec fn entry_ok(ids: Seq<ValueView>) -> bool {
    ids.len() <= u64::MAX && values_ok(ids)
}

/// The primary key values that the whole of `s` holds.
pub open spec fn entry_of_bytes(s: Seq<u8>) -> Option<Seq<ValueView>> {
    if s.len() < 8 {
        None
    } else {
        match parse_values(s, 8, be64_at(s, 0) as nat) {
            None => None,
            Some((ids, e)) => if e == s.len() {
                Some(ids)
            } else {
                None
            },
        }
    }
}

/// The table name that the whole of `s` spells.
pub open spec fn name_of_bytes(s: Seq<u8>) -> Option<Seq<char>> {
    if valid_utf8(s) {
        Some(decode_utf8(s))
    } else {
        None
    }
}

/// Reading a column's payload gives the column back.
pub proof fn lemma_column_round_trip(c: ColumnView)
    requires
        column_ok(c),
    ensures
        column_of_bytes(column_bytes(c)) == Some(c),
{
    let s = column_bytes(c);
    assert(s.subrange(0, s.len() as int) =~= s);
    lemma_column_parse(s, 0, c);
}

/// Only a column's own payload reads as that column.
pub proof fn lemma_column_payload(s: Seq<u8>)
    requires
        column_of_bytes(s) is Some,
    ensures
        column_of_bytes(s) matches Some(c) && column_ok(c) && column_bytes(c) == s,
{
    lemma_column_exact(s, 0);
    assert(s.subrange(0, s.len() as int) =~= s);
}

/// Reading a row's payload with the row's columns gives the row back.
pub proof fn lemma_tuple_round_trip(t: TupleView)
    requires
        t.wf(),
        values_ok(t.values),
    ensures
        tuple_of_bytes(t.columns, tuple_bytes(t.values)) == Some(t),
{
    let s = tuple_bytes(t.values);
    assert(s.subrange(0, s.len() as int) =~= s);
    lemma_values_parse(s, 0, t.values);
}

/// Only a row's own payload reads as that row.
pub proof fn lemma_tuple_payload(cols: Seq<ColumnView>, s: Seq<u8>)
    requires
        tuple_of_bytes(cols, s) is Some,
    ensures
        tuple_of_bytes(cols, s) matches Some(t) && t.wf() && values_ok(t.values) && t.columns
            == cols && tuple_bytes(t.values) == s,
{
    lemma_values_exact(s, 0, cols.len());
    assert(s.subrange(0, s.len() as int) =~= s);
}

/// Reading an index entry's payload gives the primary key values back.
pub proof fn lemma_entry_round_trip(ids: Seq<ValueView>)
    requires
        entry_ok(ids),
    ensures
        entry_of_bytes(entry_bytes(ids)) == Some(ids),
{
    let s = entry_bytes(ids);
    lemma_holds_appended(be64(ids.len() as u64), values_bytes(ids));
    lemma_be64_at(s, 0, ids.len() as u64);
    lemma_values_parse(s, 8, ids);
}

/// Only an index entry's own payload reads as its primary key values.
pub proof fn lemma_entry_payload(s: Seq<u8>)
    requires
        entry_of_bytes(s) is Some,
    ensures
        entry_of_bytes(s) matches Some(ids) && entry_ok(ids) && entry_bytes(ids) == s,
{
    let n = be64_at(s, 0);
    lemma_values_exact(s, 8, n as nat);
    lemma_be64_of(s, 0);
    let ids = entry_of_bytes(s)->0;
    lemma_holds_split(s, 0, be64(n), values_bytes(ids));
    assert(s.subrange(0, s.len() as int) =~= s);
}

/// Reading a table name's payload gives the name back.
pub proof fn lemma_name_round_trip(name: Seq<char>)
    ensures
        name_of_bytes(encode_utf8(name)) == Some(name),
{
    encode_utf8_valid_utf8(name);
    encode_utf8_decode_utf8(name);
}

/// Only a name's own payload reads as that name.
pub proof fn lemma_name_payload(s: Seq<u8>)
    requires
        name_of_bytes(s) is Some,
    ensures
        name_of_bytes(s) matches Some(name) && encode_utf8(name) == s,
{
    decode_utf8_encode_utf8(s);
}

/// A key lies in the range of its own family and table and in no other:
/// not in another family's, and not in another table's.
pub proof fn lemma_exactly_one_family(k: Seq<u8>, f: u8, t: Seq<char>, g: u8, u: Seq<char>)
    requires
        key_of(k, f, t),
        text_ok(t),
        text_ok(u),
    ensures
        in_family(k, g, u) <==> g == f && (f == ROOT || u == t),
{
    if g == f && (f == ROOT || u == t) {
        lemma_key_in_family(k, f, t);
    } else {
        lemma_key_not_in_other(k, f, t, g, u);
    }
}

/// Each key that the codec makes is a key of the family it is made for.
pub proof fn lemma_codec_keys(t: Seq<char>, id: u32, v: ValueView, values: Seq<ValueView>)
    ensures
        key_of(root_key(t), ROOT, t),
        key_of(column_key(t, id), COLUMN, t),
        key_of(index_meta_key(t, id), INDEX_META, t),
        key_of(tuple_key(t, v), TUPLE, t),
        key_of(index_key(t, id, values), INDEX, t),
{
    lemma_holds_appended(family_min(ROOT, t), encode_utf8(t));
    lemma_holds_appended(family_min(COLUMN, t), be32(id));
    lemma_holds_appended(family_min(INDEX_META, t), be32(id));
    lemma_holds_appended(family_min(TUPLE, t), value_bytes(v));
    lemma_index_key_inside(t, id, values);
}

/// The functions that turn catalog objects, rows and index entries into
/// keys and payloads, and payloads back into values. It holds no state.
pub struct TableCodec {}

impl TableCodec {
    /// The range that holds exactly the rows of `table`.
    pub fn tuple_bound(table: &str) -> (r: (Vec<u8>, Vec<u8>))
        ensures
            r.0@ == family_min(TUPLE, table@),
            r.1@ == family_max(TUPLE, table@),
    {
        family_bound(TUPLE, table)
    }

    /// The range that holds exactly the index descriptions of `table`.
    pub fn index_meta_bound(table: &str) -> (r: (Vec<u8>, Vec<u8>))
        ensures
            r.0@ == family_min(INDEX_META, table@),
            r.1@ == family_max(INDEX_META, table@),
    {
        family_bound(INDEX_META, table)
    }

    /// The range that holds exactly the entries of one index of `table`.
    pub fn index_bound(table: &str, index_id: u32) -> (r: (Vec<u8>, Vec<u8>))
        ensures
            r.0@ == index_min(table@, index_id),
            r.1@ == index_max(table@, index_id),
    {
        let mut min = index_start(table, index_id);
        let mut max = index_start(table, index_id);
        min.push(0);
        max.push(1);
        (min, max)
    }

    /// The range that holds exactly the entries of all indexes of `table`.
    pub fn all_index_bound(table: &str) -> (r: (Vec<u8>, Vec<u8>))
        ensures
            r.0@ == family_min(INDEX, table@),
            r.1@ == family_max(INDEX, table@),
    {
        family_bound(INDEX, table)
    }

    /// The range that holds exactly the column descriptions of `table`.
    pub fn columns_bound(table: &str) -> (r: (Vec<u8>, Vec<u8>))
        ensures
            r.0@ == family_min(COLUMN, table@),
            r.1@ == family_max(COLUMN, table@),
    {
        family_bound(COLUMN, table)
    }

    /// The range that holds exactly the table directory.
    pub fn root_table_bound() -> (r: (Vec<u8>, Vec<u8>))
        ensures
            r.0@ == family_min(ROOT, Seq::empty()),
            r.1@ == family_max(ROOT, Seq::empty()),
    {
        let r = family_bound(ROOT, "");
        r
    }

    /// Key and payload of a row. Fails unless the row has one value of the
    /// declared type per column and its `id` is its primary key value.
    pub fn encode_tuple(table: &str, tuple: &Tuple) -> (r: Result<(Vec<u8>, Vec<u8>), CodecError>)
        ensures
            r is Ok <==> tuple@.wf() && tuple@.id is Some,
            r matches Ok((k, v)) ==> k@ == tuple_key(table@, tuple@.id->0) && v@ == tuple_bytes(
                tuple@.values,
            ) && values_ok(tuple@.values) && text_ok(table@),
            r matches Err(e) ==> e == CodecError::EncodeError,
    {
        if !tuple_is_wf(tuple) {
            return Err(CodecError::EncodeError);
        }
        match &tuple.id {
            None => Err(CodecError::EncodeError),
            Some(id) => {
                let key = TableCodec::encode_tuple_key(table, id);
                let mut value: Vec<u8> = Vec::new();
                put_values(&mut value, &tuple.values);
                Ok((key, value))
            },
        }
    }

    /// The key of the row whose primary key value is `tuple_id`.
    pub fn encode_tuple_key(table: &str, tuple_id: &TupleId) -> (k: Vec<u8>)
        ensures
            k@ == tuple_key(table@, tuple_id@),
            text_ok(table@),
    {
        let mut key = least_key(TUPLE, table);
        put_value(&mut key, tuple_id);
        key
    }

    /// The row of the given columns that the payload holds.
    pub fn decode_tuple(columns: Vec<ColumnCatalog>, bytes: &[u8]) -> (r: Result<
        Tuple,
        CodecError,
    >)
        ensures
            match r {
                Ok(t) => tuple_of_bytes(views(columns@), bytes@) == Some(t@),
                Err(e) => e == CodecError::DecodeError && tuple_of_bytes(views(columns@), bytes@)
                    is None,
            },
    {
        match take_values(bytes, 0, columns.len()) {
            None => Err(CodecError::DecodeError),
            Some((values, e)) => {
                proof {
                    lemma_values_exact(bytes@, 0, columns@.len());
                }
                if e != bytes.len() || !values_fit(&columns, &values) {
                    return Err(CodecError::DecodeError);
                }
                let id = match primary_index(&columns) {
                    Some(i) => Some(values[i].clone()),
                    None => None,
                };
                Ok(Tuple { id, columns, values })
            },
        }
    }

    /// Key and payload of an index description.
    pub fn encode_index_meta(table: &str, index_meta: &IndexMeta) -> (r: (Vec<u8>, Vec<u8>))
        ensures
            r.0@ == index_meta_key(table@, index_meta@.id),
            r.1@ == index_meta_bytes(index_meta@),
            index_meta_ok(index_meta@),
            text_ok(table@),
    {
        let mut key = least_key(INDEX_META, table);
        put_u32(&mut key, index_meta.id);
        (key, write_index_meta(index_meta))
    }

    /// The index description that the payload holds.
    pub fn decode_index_meta(bytes: &[u8]) -> (r: Result<IndexMeta, CodecError>)
        ensures
            match r {
                Ok(m) => index_meta_of_bytes(bytes@) == Some(m@),
                Err(e) => e == CodecError::DecodeError && index_meta_of_bytes(bytes@) is None,
            },
    {
        match read_index_meta(bytes) {
            Some(m) => Ok(m),
            None => Err(CodecError::DecodeError),
        }
    }

    /// Key and payload of an index entry: the entry of `index` that leads
    /// to the rows with the primary key values `tuple_ids`.
    pub fn encode_index(table: &str, index: &Index, tuple_ids: &Vec<TupleId>) -> (r: (
        Vec<u8>,
        Vec<u8>,
    ))
        ensures
            r.0@ == index_key(table@, index.id, views(index.column_values@)),
            r.1@ == entry_bytes(views(tuple_ids@)),
            entry_ok(views(tuple_ids@)),
            text_ok(table@),
    {
        let key = TableCodec::encode_index_key(table, index);
        let mut value: Vec<u8> = Vec::new();
        put_u64(&mut value, tuple_ids.len() as u64);
        put_values(&mut value, tuple_ids);
        (key, value)
    }

    /// The key of the entry of `index`.
    pub fn encode_index_key(table: &str, index: &Index) -> (k: Vec<u8>)
        ensures
            k@ == index_key(table@, index.id, views(index.column_values@)),
            text_ok(table@),
    {
        let mut key = index_start(table, index.id);
        key.push(0);
        put_values(&mut key, &index.column_values);
        key
    }

    /// The primary key values that the payload of an index entry holds.
    pub fn decode_index(bytes: &[u8]) -> (r: Result<Vec<TupleId>, CodecError>)
        ensures
            match r {
                Ok(ids) => entry_of_bytes(bytes@) == Some(views(ids@)),
                Err(e) => e == CodecError::DecodeError && entry_of_bytes(bytes@) is None,
            },
    {
        match get_u64(bytes, 0) {
            None => Err(CodecError::DecodeError),
            Some(n) => {
                if n > (bytes.len() - 8) as u64 {
                    proof {
                        if parse_values(bytes@, 8, n as nat) is Some {
                            lemma_values_exact(bytes@, 8, n as nat);
                            lemma_values_len(values_read(bytes@, 8, n as nat));
                        }
                    }
                    return Err(CodecError::DecodeError);
                }
                match take_values(bytes, 8, n as usize) {
                    None => Err(CodecError::DecodeError),
                    Some((ids, e)) => if e == bytes.len() {
                        Ok(ids)
                    } else {
                        Err(CodecError::DecodeError)
                    },
                }
            },
        }
    }

    /// Key and payload of a column description. Fails if the column has no
    /// number yet.
    pub fn encode_column(table: &str, col: &ColumnCatalog) -> (r: Result<
        (Vec<u8>, Vec<u8>),
        CodecError,
    >)
        ensures
            r is Ok <==> col@.id is Some,
            r matches Ok((k, v)) ==> k@ == column_key(table@, col@.id->0) && v@ == column_bytes(
                col@,
            ) && column_ok(col@) && text_ok(table@),
            r matches Err(e) ==> e == CodecError::EncodeError,
    {
        match col.id {
            None => Err(CodecError::EncodeError),
            Some(id) => {
                let mut key = least_key(COLUMN, table);
                put_u32(&mut key, id);
                Ok((key, write_column(col)))
            },
        }
    }

    /// The column description that the payload holds.
    pub fn decode_column(bytes: &[u8]) -> (r: Result<ColumnCatalog, CodecError>)
        ensures
            match r {
                Ok(c) => column_of_bytes(bytes@) == Some(c@),
                Err(e) => e == CodecError::DecodeError && column_of_bytes(bytes@) is None,
            },
    {
        match read_column(bytes) {
            Some(c) => Ok(c),
            None => Err(CodecError::DecodeError),
        }
    }

    /// Key and payload of a table's entry in the directory.
    pub fn encode_root_table(table: &str) -> (r: (Vec<u8>, Vec<u8>))
        ensures
            r.0@ == root_key(table@),
            r.1@ == encode_utf8(table@),
    {
        let key = TableCodec::encode_root_table_key(table);
        let mut value: Vec<u8> = Vec::new();
        put_bytes(&mut value, table.as_bytes());
        assert(value@ =~= encode_utf8(table@));
        (key, value)
    }

    /// The key of a table's entry in the directory.
    pub fn encode_root_table_key(table: &str) -> (k: Vec<u8>)
        ensures
            k@ == root_key(table@),
    {
        let mut key = least_key(ROOT, table);
        put_bytes(&mut key, table.as_bytes());
        key
    }

    /// The table name that the payload of a directory entry holds.
    pub fn decode_root_table(bytes: &[u8]) -> (r: Result<String, CodecError>)
        ensures
            match r {
                Ok(name) => name_of_bytes(bytes@) == Some(name@),
                Err(e) => e == CodecError::DecodeError && name_of_bytes(bytes@) is None,
            },
    {
        assert(bytes@.subrange(0, bytes@.len() as int) =~= bytes@);
        match read_utf8(bytes, 0, bytes.len()) {
            Some(name) => Ok(name),
            None => Err(CodecError::DecodeError),
        }
    }
}

/// The forms of `n` values take at least `n` bytes.
pub proof fn lemma_values_len(vs: Seq<ValueView>)
    ensures
        values_bytes(vs).len() >= vs.len(),
    decreases vs.len(),
{
    if vs.len() > 0 {
        lemma_values_len(vs.drop_last());
    }
}

/// Whether each value has the type that its column declares.
pub fn values_fit(columns: &Vec<ColumnCatalog>, values: &Vec<DataValue>) -> (r: bool)
    ensures
        r == types_match(views(columns@), views(values@)),
{
    if columns.len() != values.len() {
        return false;
    }
    let mut i: usize = 0;
    while i < values.len()
        invariant
            i <= values@.len(),
            columns@.len() == values@.len(),
            forall|j: int|
                0 <= j < i ==> (#[trigger] views(values@)[j]).logical_type() == views(
                    columns@,
                )[j].desc.column_datatype,
        decreases values@.len() - i,
    {
        if values[i].logical_type() != columns[i].desc.column_datatype {
            assert(views(values@)[i as int].logical_type() != views(
                columns@,
            )[i as int].desc.column_datatype);
            return false;
        }
        i += 1;
    }
    true
}

/// Whether the row keeps its invariant.
pub fn tuple_is_wf(tuple: &Tuple) -> (r: bool)
    ensures
        r == tuple@.wf(),
{
    if !values_fit(&tuple.columns, &tuple.values) {
        return false;
    }
    match (primary_index(&tuple.columns), &tuple.id) {
        (Some(i), Some(id)) => tuple.values[i].same(id),
        (None, None) => true,
        _ => false,
    }
}

} // verus!

verus! {

/// The values read from `pos` on.
pub open spec fn values_read(s: Seq<u8>, pos: int, n: nat) -> Seq<ValueView> {
    match parse_values(s, pos, n) {
        Some((vs, _)) => vs,
        None => Seq::empty(),
    }
}

} // verus!
