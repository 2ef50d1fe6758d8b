//! The rules of a transaction over an ordered key-value store.
//!
//! The store itself stays outside: each rule takes what was read from it as
//! plain values and gives back what is to be written, in order. A store is
//! modelled as a map from keys to payloads; a range scan of it hands out its
//! entries in key order, among them possibly keys that were removed, which
//! come without a payload.
use crate::catalog::column::{ColumnCatalog, ColumnView};
use crate::catalog::table::{
    derived_after, derived_indexes, index_meta_of, names_distinct, placed, CatalogError, IndexMeta,
    IndexMetaView, TableCatalog, TableName, TableView,
};
use crate::storage::catalog_codec::{
    column_bytes, column_of_bytes, index_meta_bytes, index_meta_of_bytes,
};
use crate::storage::keys::{column_key, index_key, index_meta_key, root_key, tuple_key};
use crate::storage::order::{in_range, lex_lt};
use crate::storage::table_codec::{
    entry_bytes, entry_of_bytes, name_of_bytes, tuple_bytes, CodecError, TableCodec,
};
use crate::types::tuple::{Index, Tuple};
use crate::types::value::{views, TupleId, TypeError, ValueView};
use vstd::prelude::*;
use vstd::string::StringExecFns;
use vstd::utf8::encode_utf8;

verus! {

/// Why a storage rule refuses.
#[derive(Clone, Copy, Debug, PartialEq, Eq, Structural)]
pub enum StorageError {
    TableNotFound,
    TableExists,
    DuplicatePrimaryKey,
    DuplicateUniqueValue,
    /// The table to create has no column.
    ColumnsEmpty,
    /// Two columns of the table to create bear one name.
    DuplicateColumn,
    Codec(CodecError),
    Type(TypeError),
    /// The store itself failed. No rule of this library says so: it is for
    /// whoever drives the store to report what the store reported.
    Engine,
}

impl StorageError {
    /// What went wrong, in words.
    pub open spec fn text(self) -> Seq<char> {
        match self {
            StorageError::TableNotFound => "The table not found"@,
            StorageError::TableExists => "The table already exists"@,
            StorageError::DuplicatePrimaryKey => "The same primary key data already exists"@,
            StorageError::DuplicateUniqueValue =>
                "The column has been declared unique and the value already exists"@,
            StorageError::ColumnsEmpty => "A table must have a column"@,
            StorageError::DuplicateColumn => "Two columns of the table bear one name"@,
            StorageError::Codec(CodecError::EncodeError) => "codec error: encode"@,
            StorageError::Codec(CodecError::DecodeError) => "codec error: decode"@,
            StorageError::Type(e) => "type error: "@ + e.text(),
            StorageError::Engine => "The store failed"@,
        }
    }

    pub fn message(&self) -> (r: String)
        ensures
            r@ == self.text(),
    {
        match self {
            StorageError::TableNotFound => String::from_str("The table not found"),
            StorageError::TableExists => String::from_str("The table already exists"),
            StorageError::DuplicatePrimaryKey => String::from_str(
                "The same primary key data already exists",
            ),
            StorageError::DuplicateUniqueValue => String::from_str(
                "The column has been declared unique and the value already exists",
            ),
            StorageError::ColumnsEmpty => String::from_str("A table must have a column"),
            StorageError::DuplicateColumn => String::from_str(
                "Two columns of the table bear one name",
            ),
            StorageError::Codec(CodecError::EncodeError) => String::from_str("codec error: encode"),
            StorageError::Codec(CodecError::DecodeError) => String::from_str("codec error: decode"),
            StorageError::Type(e) => String::from_str("type error: ").concat(e.message().as_str()),
            StorageError::Engine => String::from_str("The store failed"),
        }
    }
}

/// What a store maps keys to.
pub type Store = Map<Seq<u8>, Seq<u8>>;

/// One item of a range scan: a key, and its payload unless the key was
/// removed.
#[derive(Debug, PartialEq, Eq)]
pub struct Entry {
    pub key: Vec<u8>,
    pub value: Option<Vec<u8>>,
}

pub struct EntryView {
    pub key: Seq<u8>,
    pub value: Option<Seq<u8>>,
}

impl View for Entry {
    type V = EntryView;

    open spec fn view(&self) -> EntryView {
        EntryView {
            key: self.key@,
            value: match self.value {
                Some(v) => Some(v@),
                None => None,
            },
        }
    }
}

/// A change to the store.
#[derive(Debug, PartialEq, Eq)]
pub enum WriteOp {
    Put { key: Vec<u8>, value: Vec<u8> },
    Remove { key: Vec<u8> },
}

pub enum WriteView {
    Put { key: Seq<u8>, value: Seq<u8> },
    Remove { key: Seq<u8> },
}

impl View for WriteOp {
    type V = WriteView;

    open spec fn view(&self) -> WriteView {
        match self {
            WriteOp::Put { key, value } => WriteView::Put { key: key@, value: value@ },
            WriteOp::Remove { key } => WriteView::Remove { key: key@ },
        }
    }
}

/// The store after one change.
pub open spec fn apply(m: Store, w: WriteView) -> Store {
    match w {
        WriteView::Put { key, value } => m.insert(key, value),
        WriteView::Remove { key } => m.remove(key),
    }
}

/// The store after the changes, made in order.
pub open spec fn apply_all(m: Store, ws: Seq<WriteView>) -> Store
    decreases ws.len(),
{
    if ws.len() == 0 {
        m
    } else {
        apply(apply_all(m, ws.drop_last()), ws.last())
    }
}

/// `entries` is what a scan of `m` from `min` to `max` hands out: keys of
/// the range in strictly ascending order, every key of `m` in the range
/// among them with its payload, and any other without one.
pub open spec fn scan_of(entries: Seq<EntryView>, m: Store, min: Seq<u8>, max: Seq<u8>) -> bool {
    &&& forall|i: int, j: int|
        0 <= i < j < entries.len() ==> lex_lt(
            (#[trigger] entries[i]).key,
            (#[trigger] entries[j]).key,
        )
    &&& forall|i: int|
        0 <= i < entries.len() ==> in_range((#[trigger] entries[i]).key, min, max)
            && entries[i].value == (if m.contains_key(entries[i].key) {
            Some(m[entries[i].key])
        } else {
            None
        })
    &&& forall|k: Seq<u8>|
        m.contains_key(k) && in_range(k, min, max) ==> exists|i: int|
            0 <= i < entries.len() && (#[trigger] entries[i]).key == k
}

/// What `add_index` does, given what the store holds under the entry's
/// key: nothing stored, write the entry; the same first row stored, do
/// nothing; another row stored, refuse.
pub open spec fn add_index_plan(
    key: Seq<u8>,
    tuple_ids: Seq<ValueView>,
    stored: Option<Seq<u8>>,
) -> Result<Option<WriteView>, StorageError> {
    match stored {
        None => Ok(Some(WriteView::Put { key, value: entry_bytes(tuple_ids) })),
        Some(bytes) => match entry_of_bytes(bytes) {
            None => Err(StorageError::Codec(CodecError::DecodeError)),
            Some(old) => if old.len() == 0 {
                Err(StorageError::Codec(CodecError::DecodeError))
            } else if old[0] != tuple_ids[0] {
                Err(StorageError::DuplicateUniqueValue)
            } else {
                Ok(None)
            },
        },
    }
}

/// Adds the entry of `index` that leads to the rows `tuple_ids`, where
/// `stored` is what the store holds under the entry's key.
pub fn add_index(
    table_name: &str,
    index: &Index,
    tuple_ids: &Vec<TupleId>,
    is_unique: bool,
    stored: Option<&Vec<u8>>,
) -> (r: Result<Option<WriteOp>, StorageError>)
    requires
        tuple_ids@.len() > 0,
        stored is Some ==> is_unique,
    ensures
        match add_index_plan(
            index_key(table_name@, index.id, views(index.column_values@)),
            views(tuple_ids@),
            match stored {
                Some(b) => Some(b@),
                None => None,
            },
        ) {
            Ok(Some(w)) => r matches Ok(Some(op)) && op@ == w,
            Ok(None) => r matches Ok(None),
            Err(e) => r matches Err(f) && f == e,
        },
{
    let (key, value) = TableCodec::encode_index(table_name, index, tuple_ids);
    match stored {
        Some(bytes) => {
            match TableCodec::decode_index(bytes.as_slice()) {
                Err(e) => Err(StorageError::Codec(e)),
                Ok(old) => {
                    if old.len() == 0 {
                        Err(StorageError::Codec(CodecError::DecodeError))
                    } else if !old[0].same(&tuple_ids[0]) {
                        Err(StorageError::DuplicateUniqueValue)
                    } else {
                        Ok(None)
                    }
                },
            }
        },
        None => Ok(Some(WriteOp::Put { key, value })),
    }
}

/// Removes the entry of `index`, whatever it leads to.
pub fn del_index(table_name: &str, index: &Index) -> (op: WriteOp)
    ensures
        op@ == (WriteView::Remove {
            key: index_key(table_name@, index.id, views(index.column_values@)),
        }),
{
    WriteOp::Remove { key: TableCodec::encode_index_key(table_name, index) }
}

/// Writes a row, where `exists` tells whether the store holds a row under
/// the same primary key value. Refuses a second row under one primary key
/// value unless asked to overwrite.
pub fn append(table_name: &str, tuple: &Tuple, is_overwrite: bool, exists: bool) -> (r: Result<
    WriteOp,
    StorageError,
>)
    ensures
        !(tuple@.wf() && tuple@.id is Some) ==> r == Err::<WriteOp, StorageError>(
            StorageError::Codec(CodecError::EncodeError),
        ),
        tuple@.wf() && tuple@.id is Some && !is_overwrite && exists ==> r == Err::<
            WriteOp,
            StorageError,
        >(StorageError::DuplicatePrimaryKey),
        tuple@.wf() && tuple@.id is Some && (is_overwrite || !exists) ==> (r matches Ok(op) && op@
            == (WriteView::Put {
            key: tuple_key(table_name@, tuple@.id->0),
            value: tuple_bytes(tuple@.values),
        })),
{
    match TableCodec::encode_tuple(table_name, tuple) {
        Err(e) => Err(StorageError::Codec(e)),
        Ok((key, value)) => {
            if !is_overwrite && exists {
                Err(StorageError::DuplicatePrimaryKey)
            } else {
                Ok(WriteOp::Put { key, value })
            }
        },
    }
}

/// Removes the row whose primary key value is `tuple_id`. Its index
/// entries are the caller's to remove.
pub fn delete(table_name: &str, tuple_id: &TupleId) -> (op: WriteOp)
    ensures
        op@ == (WriteView::Remove { key: tuple_key(table_name@, tuple_id@) }),
{
    WriteOp::Remove { key: TableCodec::encode_tuple_key(table_name, tuple_id) }
}

/// The writes that store the index descriptions of a table.
pub open spec fn index_meta_writes(table: Seq<char>, metas: Seq<IndexMetaView>) -> Seq<WriteView> {
    Seq::new(
        metas.len(),
        |i: int|
            WriteView::Put {
                key: index_meta_key(table, metas[i].id),
                value: index_meta_bytes(metas[i]),
            },
    )
}

/// The writes that store the column descriptions of a table.
pub open spec fn column_writes(table: Seq<char>, cols: Seq<ColumnView>) -> Seq<WriteView> {
    Seq::new(
        cols.len(),
        |i: int|
            WriteView::Put { key: column_key(table, cols[i].id->0), value: column_bytes(cols[i]) },
    )
}

/// The table that `create_table` makes of a name and columns: the columns
/// numbered in order, and one index for each indexed column.
pub open spec fn created(name: Seq<char>, cols: Seq<ColumnView>) -> TableView {
    TableView {
        name,
        columns: placed(cols, name),
        indexes: derived_indexes(placed(cols, name)),
    }
}

/// The writes that store a new table: its directory entry, then its index
/// descriptions, then its column descriptions.
pub open spec fn create_writes(t: TableView) -> Seq<WriteView> {
    seq![WriteView::Put { key: root_key(t.name), value: encode_utf8(t.name) }] + index_meta_writes(
        t.name,
        t.indexes,
    ) + column_writes(t.name, t.columns)
}

/// Gives a table one index for each indexed column, numbered on from the
/// indexes it has, and returns the writes that store their descriptions.
pub fn create_index_meta_for_table(table: &mut TableCatalog) -> (ws: Vec<WriteOp>)
    requires
        old(table)@.indexes.len() + old(table)@.columns.len() <= u32::MAX,
    ensures
        final(table)@ == (TableView {
            indexes: old(table)@.indexes + derived_after(
                old(table)@.columns,
                old(table)@.indexes.len(),
            ),
            ..old(table)@
        }),
        old(table)@.wf() ==> final(table)@.wf(),
        views(ws@) == index_meta_writes(
            final(table)@.name,
            derived_after(old(table)@.columns, old(table)@.indexes.len()),
        ),
{
    let mut ws: Vec<WriteOp> = Vec::new();
    let ghost cols = table@.columns;
    let ghost name = table@.name;
    let ghost had = table@.indexes;
    let mut i: usize = 0;
    assert(table@.indexes =~= had + derived_after(cols.take(0), had.len()));
    assert(views(ws@) =~= index_meta_writes(name, derived_after(cols.take(0), had.len())));
    while i < table.columns.len()
        invariant
            i <= table.columns@.len(),
            old(table)@.wf() ==> table@.wf(),
            had.len() + cols.len() <= u32::MAX,
            table@.columns == cols,
            table@.name == name,
            table@.indexes == had + derived_after(cols.take(i as int), had.len()),
            derived_after(cols.take(i as int), had.len()).len() <= i,
            views(ws@) == index_meta_writes(name, derived_after(cols.take(i as int), had.len())),
        decreases table.columns@.len() - i,
    {
        let ghost before = derived_after(cols.take(i as int), had.len());
        assert(cols.take(i + 1).drop_last() =~= cols.take(i as int));
        assert(cols.take(i + 1).last() == table.columns@[i as int]@);
        if table.columns[i].desc.is_index() && table.columns[i].id.is_some() {
            let meta = index_meta_of(&table.columns[i]);
            let id = table.add_index_meta(meta);
            assert(table@.indexes.len() == table.indexes@.len());
            let (key, value) = TableCodec::encode_index_meta(
                table.name.as_str(),
                &table.indexes[id as usize],
            );
            let ghost earlier = views(ws@);
            ws.push(WriteOp::Put { key, value });
            proof {
                let now = derived_after(cols.take(i + 1), had.len());
                let last = table@.indexes[id as int];
                assert(last == table.indexes@[id as int]@);
                assert(now =~= before.push(last));
                assert(table@.indexes =~= had + now);
                assert(views(ws@) =~= earlier.push(ws@.last()@));
                assert(index_meta_writes(name, now) =~= index_meta_writes(name, before).push(
                    WriteView::Put {
                        key: index_meta_key(name, last.id),
                        value: index_meta_bytes(last),
                    },
                ));
            }
        }
        i += 1;
    }
    assert(cols.take(i as int) =~= cols);
    ws
}

/// Makes a table, where `exists` tells whether the store holds a directory
/// entry of that name: the table and the writes that store it; nothing if
/// the table exists and that is acceptable; a refusal, and no write, if it
/// exists and that is not acceptable, if it is to have no column, or if two
/// of its columns bear one name.
pub fn create_table(
    table_name: TableName,
    columns: Vec<ColumnCatalog>,
    if_not_exists: bool,
    exists: bool,
) -> (r: Result<Option<(TableCatalog, Vec<WriteOp>)>, StorageError>)
    requires
        columns@.len() <= u32::MAX,
    ensures
        exists && if_not_exists ==> r matches Ok(None),
        exists && !if_not_exists ==> r matches Err(StorageError::TableExists),
        !exists && columns@.len() == 0 ==> r matches Err(StorageError::ColumnsEmpty),
        !exists && columns@.len() > 0 && !names_distinct(views(columns@)) ==> r matches Err(
            StorageError::DuplicateColumn,
        ),
        !exists && columns@.len() > 0 && names_distinct(views(columns@)) ==> (r matches Ok(
            Some((t, ws)),
        ) && t@ == created(table_name@, views(columns@)) && t@.wf() && t@.indexed() && views(ws@)
            == create_writes(t@)),
{
    if exists {
        if if_not_exists {
            return Ok(None);
        }
        return Err(StorageError::TableExists);
    }
    let (root, name_bytes) = TableCodec::encode_root_table(table_name.as_str());
    let mut ws: Vec<WriteOp> = Vec::new();
    ws.push(WriteOp::Put { key: root, value: name_bytes });
    let mut table = match TableCatalog::new(table_name, columns) {
        Ok(t) => t,
        Err(CatalogError::ColumnsEmpty) => {
            return Err(StorageError::ColumnsEmpty);
        },
        Err(CatalogError::Duplicated(_)) => {
            return Err(StorageError::DuplicateColumn);
        },
    };
    let mut metas = create_index_meta_for_table(&mut table);
    assert(table@.indexes =~= derived_indexes(table@.columns));
    let ghost first = views(ws@);
    let ghost second = views(metas@);
    ws.append(&mut metas);
    assert(views(ws@) =~= first + second);
    let mut i: usize = 0;
    while i < table.columns.len()
        invariant
            i <= table.columns@.len(),
            table@.wf(),
            views(ws@) == first + second + column_writes(
                table@.name,
                table@.columns.take(i as int),
            ),
        decreases table.columns@.len() - i,
    {
        assert(table@.columns[i as int] == table.columns@[i as int]@);
        let ghost earlier = views(ws@);
        match TableCodec::encode_column(table.name.as_str(), &table.columns[i]) {
            Ok((key, value)) => {
                ws.push(WriteOp::Put { key, value });
            },
            Err(_) => {},
        }
        proof {
            let cols = table@.columns;
            assert(views(ws@) =~= earlier.push(ws@.last()@));
            assert(column_writes(table@.name, cols.take(i + 1)) =~= column_writes(
                table@.name,
                cols.take(i as int),
            ).push(
                WriteView::Put {
                    key: column_key(table@.name, cols[i as int].id->0),
                    value: column_bytes(cols[i as int]),
                },
            ));
        }
        assert(views(ws@) =~= first + second + column_writes(
            table@.name,
            table@.columns.take(i + 1),
        ));
        i += 1;
    }
    assert(table@.columns.take(i as int) =~= table@.columns);
    Ok(Some((table, ws)))
}

/// The removals of the keys that a scan found present, in the scan's order.
pub open spec fn removals(es: Seq<EntryView>) -> Seq<WriteView>
    decreases es.len(),
{
    if es.len() == 0 {
        Seq::empty()
    } else if es.last().value is Some {
        removals(es.drop_last()).push(WriteView::Remove { key: es.last().key })
    } else {
        removals(es.drop_last())
    }
}

/// The removals that empty the range that was scanned.
pub fn _drop_data(entries: &Vec<Entry>) -> (ws: Vec<WriteOp>)
    ensures
        views(ws@) == removals(views(entries@)),
{
    let mut ws: Vec<WriteOp> = Vec::new();
    let ghost all = views(entries@);
    let mut i: usize = 0;
    assert(views(ws@) =~= removals(all.take(0)));
    while i < entries.len()
        invariant
            i <= entries@.len(),
            all == views(entries@),
            views(ws@) == removals(all.take(i as int)),
        decreases entries@.len() - i,
    {
        assert(all.take(i + 1).drop_last() =~= all.take(i as int));
        assert(all.take(i + 1).last() == entries@[i as int]@);
        if entries[i].value.is_some() {
            ws.push(WriteOp::Remove { key: copy_bytes(&entries[i].key) });
            assert(views(ws@) =~= removals(all.take(i + 1)));
        }
        i += 1;
    }
    assert(all.take(i as int) =~= all);
    ws
}

/// A copy of a byte string.
pub fn copy_bytes(b: &Vec<u8>) -> (r: Vec<u8>)
    ensures
        r@ == b@,
{
    let mut r: Vec<u8> = Vec::new();
    crate::storage::wire::put_bytes(&mut r, b.as_slice());
    assert(r@ =~= b@);
    r
}

/// The removals that take away the rows of a table and the entries of its
/// indexes, given the scans of both ranges.
pub fn drop_data(tuples: &Vec<Entry>, indexes: &Vec<Entry>) -> (ws: Vec<WriteOp>)
    ensures
        views(ws@) == removals(views(tuples@)) + removals(views(indexes@)),
{
    let mut ws = _drop_data(tuples);
    let mut second = _drop_data(indexes);
    let ghost a = views(ws@);
    let ghost b = views(second@);
    ws.append(&mut second);
    assert(views(ws@) =~= a + b);
    ws
}

/// The removals that take a table away.
pub open spec fn drop_writes(
    table: Seq<char>,
    tuples: Seq<EntryView>,
    indexes: Seq<EntryView>,
    columns: Seq<EntryView>,
    index_metas: Seq<EntryView>,
) -> Seq<WriteView> {
    removals(tuples) + removals(indexes) + removals(columns) + removals(index_metas)
        + seq![WriteView::Remove { key: root_key(table) }]
}

/// The removals that take a table away, given the scans of its four
/// ranges: its rows, then its index entries, then its column
/// descriptions, then its index descriptions, and last its directory entry.
pub fn drop_table(
    table_name: &str,
    tuples: &Vec<Entry>,
    indexes: &Vec<Entry>,
    columns: &Vec<Entry>,
    index_metas: &Vec<Entry>,
) -> (ws: Vec<WriteOp>)
    ensures
        views(ws@) == drop_writes(
            table_name@,
            views(tuples@),
            views(indexes@),
            views(columns@),
            views(index_metas@),
        ),
{
    let mut ws = drop_data(tuples, indexes);
    let mut third = _drop_data(columns);
    let mut fourth = _drop_data(index_metas);
    let ghost a = views(ws@);
    let ghost b = views(third@);
    let ghost c = views(fourth@);
    ws.append(&mut third);
    assert(views(ws@) =~= a + b);
    ws.append(&mut fourth);
    assert(views(ws@) =~= a + b + c);
    ws.push(WriteOp::Remove { key: TableCodec::encode_root_table_key(table_name) });
    assert(views(ws@) =~= a + b + c + seq![WriteView::Remove { key: root_key(table_name@) }]);
    ws
}

/// The columns that the present entries of a scan describe, in the scan's
/// order; nothing if one of them describes none.
pub open spec fn collected_columns(es: Seq<EntryView>) -> Option<Seq<ColumnView>>
    decreases es.len(),
{
    if es.len() == 0 {
        Some(Seq::empty())
    } else {
        match collected_columns(es.drop_last()) {
            None => None,
            Some(before) => match es.last().value {
                None => Some(before),
                Some(bytes) => match column_of_bytes(bytes) {
                    None => None,
                    Some(c) => Some(before.push(c)),
                },
            },
        }
    }
}

/// The indexes that the present entries of a scan describe, in the scan's
/// order, each with the number it is stored with; nothing if one of the
/// entries describes none.
pub open spec fn collected_indexes(es: Seq<EntryView>) -> Option<Seq<IndexMetaView>>
    decreases es.len(),
{
    if es.len() == 0 {
        Some(Seq::empty())
    } else {
        match collected_indexes(es.drop_last()) {
            None => None,
            Some(before) => match es.last().value {
                None => Some(before),
                Some(bytes) => match index_meta_of_bytes(bytes) {
                    None => None,
                    Some(m) => Some(before.push(m)),
                },
            },
        }
    }
}

/// Where the first entries describe no columns, all of them describe none.
pub proof fn lemma_collected_stop(es: Seq<EntryView>, n: int)
    requires
        0 <= n <= es.len(),
        collected_columns(es.take(n)) is None,
    ensures
        collected_columns(es) is None,
    decreases es.len(),
{
    if n < es.len() {
        assert(es.drop_last().take(n) =~= es.take(n));
        lemma_collected_stop(es.drop_last(), n);
    } else {
        assert(es.take(n) =~= es);
    }
}

/// Where the first entries describe no indexes, all of them describe none.
pub proof fn lemma_collected_indexes_stop(es: Seq<EntryView>, n: int)
    requires
        0 <= n <= es.len(),
        collected_indexes(es.take(n)) is None,
    ensures
        collected_indexes(es) is None,
    decreases es.len(),
{
    if n < es.len() {
        assert(es.drop_last().take(n) =~= es.take(n));
        lemma_collected_indexes_stop(es.drop_last(), n);
    } else {
        assert(es.take(n) =~= es);
    }
}

/// Reads the column descriptions out of a scan of a table's columns.
pub fn column_collect(entries: &Vec<Entry>) -> (r: Result<Vec<ColumnCatalog>, StorageError>)
    ensures
        match r {
            Ok(cs) => collected_columns(views(entries@)) == Some(views(cs@)),
            Err(e) => e == StorageError::Codec(CodecError::DecodeError) && collected_columns(
                views(entries@),
            ) is None,
        },
{
    let mut cs: Vec<ColumnCatalog> = Vec::new();
    let ghost all = views(entries@);
    let mut i: usize = 0;
    assert(views(cs@) =~= Seq::empty());
    while i < entries.len()
        invariant
            i <= entries@.len(),
            all == views(entries@),
            collected_columns(all.take(i as int)) == Some(views(cs@)),
        decreases entries@.len() - i,
    {
        assert(all.take(i + 1).drop_last() =~= all.take(i as int));
        assert(all.take(i + 1).last() == entries@[i as int]@);
        match &entries[i].value {
            None => {},
            Some(bytes) => match TableCodec::decode_column(bytes.as_slice()) {
                Ok(c) => {
                    assert(views(cs@).push(c@) =~= views(cs@.push(c)));
                    cs.push(c);
                },
                Err(e) => {
                    proof {
                        lemma_collected_stop(all, i + 1);
                    }
                    return Err(StorageError::Codec(e));
                },
            },
        }
        i += 1;
    }
    assert(all.take(i as int) =~= all);
    Ok(cs)
}

/// Reads the index descriptions out of a scan of a table's index
/// descriptions; nothing if one of them cannot be read.
pub fn index_meta_collect(entries: &Vec<Entry>) -> (r: Option<Vec<IndexMeta>>)
    ensures
        match r {
            Some(ms) => collected_indexes(views(entries@)) == Some(views(ms@)),
            None => collected_indexes(views(entries@)) is None,
        },
{
    let mut ms: Vec<IndexMeta> = Vec::new();
    let ghost all = views(entries@);
    let mut i: usize = 0;
    assert(views(ms@) =~= Seq::empty());
    while i < entries.len()
        invariant
            i <= entries@.len(),
            all == views(entries@),
            collected_indexes(all.take(i as int)) == Some(views(ms@)),
        decreases entries@.len() - i,
    {
        assert(all.take(i + 1).drop_last() =~= all.take(i as int));
        assert(all.take(i + 1).last() == entries@[i as int]@);
        match &entries[i].value {
            None => {},
            Some(bytes) => match TableCodec::decode_index_meta(bytes.as_slice()) {
                Ok(m) => {
                    assert(views(ms@).push(m@) =~= views(ms@.push(m)));
                    ms.push(m);
                },
                Err(_) => {
                    proof {
                        lemma_collected_indexes_stop(all, i + 1);
                    }
                    return None;
                },
            },
        }
        i += 1;
    }
    assert(all.take(i as int) =~= all);
    Some(ms)
}

/// The table that the scans of a table's column descriptions and index
/// descriptions show: its columns in the scan's order, and its indexes as
/// they are stored. Nothing where no column is stored, where an entry
/// describes no column or no index, or where two columns bear one name.
pub open spec fn table_of(
    name: Seq<char>,
    columns: Seq<EntryView>,
    index_metas: Seq<EntryView>,
) -> Option<TableView> {
    match collected_columns(columns) {
        None => None,
        Some(cols) => if cols.len() == 0 || cols.len() > u32::MAX || !names_distinct(cols) {
            None
        } else {
            match collected_indexes(index_metas) {
                None => None,
                Some(indexes) => Some(TableView { name, columns: placed(cols, name), indexes }),
            }
        },
    }
}

/// Puts a table's description together from the scans of its column
/// descriptions and of its index descriptions. A description that cannot be
/// read makes the whole table absent.
pub fn table(table_name: TableName, columns: &Vec<Entry>, index_metas: &Vec<Entry>) -> (r: Option<
    TableCatalog,
>)
    ensures
        match r {
            Some(t) => table_of(table_name@, views(columns@), views(index_metas@)) == Some(t@)
                && t@.columns_wf(),
            None => table_of(table_name@, views(columns@), views(index_metas@)) is None,
        },
{
    let cols = match column_collect(columns) {
        Ok(cs) => cs,
        Err(_) => {
            return None;
        },
    };
    if cols.len() > 0xffff_ffff {
        return None;
    }
    let metas = match index_meta_collect(index_metas) {
        Some(ms) => ms,
        None => {
            return None;
        },
    };
    match TableCatalog::new_with_indexes(table_name, cols, metas) {
        Ok(t) => Some(t),
        Err(_) => None,
    }
}

/// The table names that the present entries of a scan of the directory
/// spell, in the scan's order; nothing if one of them spells none.
pub open spec fn listed(es: Seq<EntryView>) -> Option<Seq<Seq<char>>>
    decreases es.len(),
{
    if es.len() == 0 {
        Some(Seq::empty())
    } else {
        match listed(es.drop_last()) {
            None => None,
            Some(before) => match es.last().value {
                None => Some(before),
                Some(bytes) => match name_of_bytes(bytes) {
                    None => None,
                    Some(n) => Some(before.push(n)),
                },
            },
        }
    }
}

pub proof fn lemma_listed_stop(es: Seq<EntryView>, n: int)
    requires
        0 <= n <= es.len(),
        listed(es.take(n)) is None,
    ensures
        listed(es) is None,
    decreases es.len(),
{
    if n < es.len() {
        assert(es.drop_last().take(n) =~= es.take(n));
        lemma_listed_stop(es.drop_last(), n);
    } else {
        assert(es.take(n) =~= es);
    }
}

/// The text of each string.
pub open spec fn texts(s: Seq<String>) -> Seq<Seq<char>> {
    s.map_values(|x: String| x@)
}

/// The names of the tables, given a scan of the directory.
pub fn show_tables(entries: &Vec<Entry>) -> (r: Result<Vec<String>, StorageError>)
    ensures
        match r {
            Ok(names) => listed(views(entries@)) == Some(texts(names@)),
            Err(e) => e == StorageError::Codec(CodecError::DecodeError) && listed(views(entries@))
                is None,
        },
{
    let mut names: Vec<String> = Vec::new();
    let ghost all = views(entries@);
    let mut i: usize = 0;
    assert(texts(names@) =~= Seq::empty());
    while i < entries.len()
        invariant
            i <= entries@.len(),
            all == views(entries@),
            listed(all.take(i as int)) == Some(texts(names@)),
        decreases entries@.len() - i,
    {
        assert(all.take(i + 1).drop_last() =~= all.take(i as int));
        assert(all.take(i + 1).last() == entries@[i as int]@);
        match &entries[i].value {
            None => {},
            Some(bytes) => match TableCodec::decode_root_table(bytes.as_slice()) {
                Ok(n) => {
                    assert(texts(names@).push(n@) =~= texts(names@.push(n)));
                    names.push(n);
                },
                Err(e) => {
                    proof {
                        lemma_listed_stop(all, i + 1);
                    }
                    return Err(StorageError::Codec(e));
                },
            },
        }
        i += 1;
    }
    assert(all.take(i as int) =~= all);
    Ok(names)
}

} // verus!
