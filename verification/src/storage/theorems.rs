//! What holds of the storage rules on every store.
use crate::catalog::column::ColumnView;
use crate::catalog::table::{
    derived_after, derived_indexes, names_distinct, placed, IndexMetaView,
};
use crate::storage::catalog_codec::{
    column_bytes, column_of_bytes, column_ok, index_meta_bytes, index_meta_of_bytes, index_meta_ok,
    lemma_index_meta_round_trip,
};
use crate::storage::keys::{
    column_key, family_max, family_min, in_family, index_key, index_meta_key, index_prefix,
    root_key, tuple_key, COLUMN, INDEX_META, ROOT, TUPLE,
};
use crate::storage::kip::{
    add_index_plan, apply, apply_all, collected_columns, collected_indexes, column_writes,
    create_writes, created, drop_writes, index_meta_writes, listed, removals, scan_of,
    table_of, EntryView, StorageError, Store, WriteView,
};
use crate::storage::order::{
    in_range, lemma_lt_irreflexive, lemma_lt_shift, lemma_lt_unshift, lex_lt,
};
use crate::storage::scan::{
    ascending, distinct, keys_in_range, lemma_apply_concat, lemma_puts, lemma_scan_payloads,
    payloads, puts,
};
use crate::storage::table_codec::{
    entry_ok, lemma_codec_keys, lemma_column_round_trip, lemma_entry_round_trip,
    lemma_exactly_one_family, lemma_name_round_trip, name_of_bytes, tuple_bytes,
};
use crate::storage::value_codec::{text_ok, value_bytes, values_bytes};
use crate::storage::wire::{be32, be64, flip32, flip64, lemma_be32_order, lemma_be64_order};
use crate::types::tuple::TupleView;
use crate::types::value::ValueView;
use vstd::prelude::*;
use vstd::utf8::encode_utf8;

verus! {

/// What a store holds under a key.
pub open spec fn held(m: Store, key: Seq<u8>) -> Option<Seq<u8>> {
    if m.contains_key(key) {
        Some(m[key])
    } else {
        None
    }
}

/// The store after what `add_index` asks for is done.
pub open spec fn after_add_index(m: Store, plan: Result<Option<WriteView>, StorageError>) -> Store {
    match plan {
        Ok(Some(w)) => apply(m, w),
        _ => m,
    }
}

/// A unique index holds one row under one key: once an entry was added
/// under a key, adding under the same key an entry that leads to another
/// row is refused as a duplicate.
pub proof fn lemma_unique_index_refuses_second_row(
    m: Store,
    key: Seq<u8>,
    first: Seq<ValueView>,
    second: Seq<ValueView>,
)
    requires
        entry_ok(first),
        first.len() > 0,
        second.len() > 0,
        first[0] != second[0],
        add_index_plan(key, first, held(m, key)) is Ok,
    ensures
        add_index_plan(
            key,
            second,
            held(after_add_index(m, add_index_plan(key, first, held(m, key))), key),
        ) == Err::<Option<WriteView>, StorageError>(StorageError::DuplicateUniqueValue),
{
    lemma_entry_round_trip(first);
}

/// A row that was appended and then deleted is gone: no scan of the store
/// hands out a payload under the row's key.
pub proof fn lemma_deleted_row_is_gone(
    m: Store,
    table: Seq<char>,
    t: TupleView,
    entries: Seq<EntryView>,
    min: Seq<u8>,
    max: Seq<u8>,
)
    requires
        t.id is Some,
        scan_of(
            entries,
            apply(
                apply(
                    m,
                    WriteView::Put { key: tuple_key(table, t.id->0), value: tuple_bytes(t.values) },
                ),
                WriteView::Remove { key: tuple_key(table, t.id->0) },
            ),
            min,
            max,
        ),
    ensures
        forall|i: int|
            0 <= i < entries.len() && (#[trigger] entries[i]).key == tuple_key(table, t.id->0)
                ==> entries[i].value is None,
{
}

} // verus!

verus! {

/// The columns that payloads describe, in order; nothing if one of them
/// describes none.
pub open spec fn columns_of(ps: Seq<Seq<u8>>) -> Option<Seq<ColumnView>>
    decreases ps.len(),
{
    if ps.len() == 0 {
        Some(Seq::empty())
    } else {
        match columns_of(ps.drop_last()) {
            None => None,
            Some(before) => match column_of_bytes(ps.last()) {
                None => None,
                Some(c) => Some(before.push(c)),
            },
        }
    }
}

/// The indexes that payloads describe, in order; nothing if one of them
/// describes none.
pub open spec fn indexes_of(ps: Seq<Seq<u8>>) -> Option<Seq<IndexMetaView>>
    decreases ps.len(),
{
    if ps.len() == 0 {
        Some(Seq::empty())
    } else {
        match indexes_of(ps.drop_last()) {
            None => None,
            Some(before) => match index_meta_of_bytes(ps.last()) {
                None => None,
                Some(m) => Some(before.push(m)),
            },
        }
    }
}

/// The names that payloads spell, in order; nothing if one of them spells
/// none.
pub open spec fn names_of(ps: Seq<Seq<u8>>) -> Option<Seq<Seq<char>>>
    decreases ps.len(),
{
    if ps.len() == 0 {
        Some(Seq::empty())
    } else {
        match names_of(ps.drop_last()) {
            None => None,
            Some(before) => match name_of_bytes(ps.last()) {
                None => None,
                Some(n) => Some(before.push(n)),
            },
        }
    }
}

/// What is read out of a scan depends on the payloads it hands out, and
/// on nothing else.
pub proof fn lemma_read_from_payloads(es: Seq<EntryView>)
    ensures
        collected_columns(es) == columns_of(payloads(es)),
        collected_indexes(es) == indexes_of(payloads(es)),
        listed(es) == names_of(payloads(es)),
    decreases es.len(),
{
    if es.len() > 0 {
        lemma_read_from_payloads(es.drop_last());
        if let Some(v) = es.last().value {
            assert(payloads(es).drop_last() =~= payloads(es.drop_last()));
        }
    }
}

/// The payloads of columns read as those columns.
pub proof fn lemma_columns_read_back(cols: Seq<ColumnView>)
    requires
        forall|i: int| 0 <= i < cols.len() ==> column_ok(#[trigger] cols[i]),
    ensures
        columns_of(Seq::new(cols.len(), |i: int| column_bytes(cols[i]))) == Some(cols),
    decreases cols.len(),
{
    let ps = Seq::new(cols.len(), |i: int| column_bytes(cols[i]));
    if cols.len() > 0 {
        let before = cols.drop_last();
        assert(ps.drop_last() =~= Seq::new(before.len(), |i: int| column_bytes(before[i])));
        lemma_columns_read_back(before);
        lemma_column_round_trip(cols.last());
        assert(before.push(cols.last()) =~= cols);
    } else {
        assert(cols =~= Seq::empty());
    }
}

/// The payloads of indexes read as those indexes.
pub proof fn lemma_indexes_read_back(ms: Seq<IndexMetaView>)
    requires
        forall|i: int| 0 <= i < ms.len() ==> index_meta_ok(#[trigger] ms[i]),
    ensures
        indexes_of(Seq::new(ms.len(), |i: int| index_meta_bytes(ms[i]))) == Some(ms),
    decreases ms.len(),
{
    let ps = Seq::new(ms.len(), |i: int| index_meta_bytes(ms[i]));
    if ms.len() > 0 {
        let before = ms.drop_last();
        assert(ps.drop_last() =~= Seq::new(before.len(), |i: int| index_meta_bytes(before[i])));
        lemma_indexes_read_back(before);
        lemma_index_meta_round_trip(ms.last());
        assert(before.push(ms.last()) =~= ms);
    } else {
        assert(ms =~= Seq::empty());
    }
}

/// The indexes that columns call for are numbered from zero in order.
pub proof fn lemma_derived_ids(cols: Seq<ColumnView>)
    requires
        cols.len() <= u32::MAX,
    ensures
        derived_indexes(cols).len() <= cols.len(),
        forall|j: int|
            0 <= j < derived_indexes(cols).len() ==> (#[trigger] derived_indexes(cols)[j]).id == j,
    decreases cols.len(),
{
    if cols.len() > 0 {
        lemma_derived_ids(cols.drop_last());
        assert(derived_indexes(cols.drop_last()) == derived_after(cols.drop_last(), 0));
    }
}

/// The keys of a table's column descriptions, by the columns' numbers.
pub open spec fn column_keys(table: Seq<char>, n: nat) -> Seq<Seq<u8>> {
    Seq::new(n, |i: int| column_key(table, i as u32))
}

/// The keys of a table's index descriptions, by the indexes' numbers.
pub open spec fn index_meta_keys(table: Seq<char>, n: nat) -> Seq<Seq<u8>> {
    Seq::new(n, |i: int| index_meta_key(table, i as u32))
}

/// Keys that end in the bytes of rising numbers rise.
pub proof fn lemma_numbered_keys_ascend(table: Seq<char>, n: nat)
    requires
        n <= u32::MAX,
    ensures
        ascending(column_keys(table, n)),
        ascending(index_meta_keys(table, n)),
        distinct(column_keys(table, n)),
        distinct(index_meta_keys(table, n)),
{
    assert forall|i: int, j: int| 0 <= i < j < n implies lex_lt(
        #[trigger] column_keys(table, n)[i],
        #[trigger] column_keys(table, n)[j],
    ) by {
        lemma_be32_order(i as u32, j as u32);
        lemma_lt_shift(family_min(COLUMN, table), be32(i as u32), be32(j as u32));
    }
    assert forall|i: int, j: int| 0 <= i < j < n implies lex_lt(
        #[trigger] index_meta_keys(table, n)[i],
        #[trigger] index_meta_keys(table, n)[j],
    ) by {
        lemma_be32_order(i as u32, j as u32);
        lemma_lt_shift(family_min(INDEX_META, table), be32(i as u32), be32(j as u32));
    }
    assert forall|i: int, j: int| 0 <= i < j < n implies #[trigger] column_keys(table, n)[i]
        != #[trigger] column_keys(table, n)[j] by {
        lemma_lt_irreflexive(column_keys(table, n)[i]);
    }
    assert forall|i: int, j: int| 0 <= i < j < n implies #[trigger] index_meta_keys(table, n)[i]
        != #[trigger] index_meta_keys(table, n)[j] by {
        lemma_lt_irreflexive(index_meta_keys(table, n)[i]);
    }
}

/// The store holds nothing in the range of a family and table.
pub open spec fn family_empty(m: Store, family: u8, table: Seq<char>) -> bool {
    forall|k: Seq<u8>| m.contains_key(k) ==> !in_family(k, family, table)
}

/// Every text in the description of the table that `create_table` makes
/// is short enough to be written.
pub open spec fn creatable(name: Seq<char>, cols: Seq<ColumnView>) -> bool {
    &&& text_ok(name)
    &&& 0 < cols.len() <= u32::MAX
    &&& names_distinct(cols)
    &&& forall|i: int| 0 <= i < cols.len() ==> column_ok(#[trigger] created(name, cols).columns[i])
    &&& forall|i: int|
        0 <= i < created(name, cols).indexes.len() ==> index_meta_ok(
            #[trigger] created(name, cols).indexes[i],
        )
}

/// What the store holds of a table once the writes of its creation are
/// made: its column descriptions and its index descriptions, each under
/// its key, and nothing else in their ranges.
pub proof fn lemma_store_after_create(m: Store, name: Seq<char>, cols: Seq<ColumnView>)
    requires
        creatable(name, cols),
        family_empty(m, COLUMN, name),
        family_empty(m, INDEX_META, name),
    ensures
        ({
            let t = created(name, cols);
            let after = apply_all(m, create_writes(t));
            &&& keys_in_range(
                after,
                family_min(COLUMN, name),
                family_max(COLUMN, name),
                column_keys(name, t.columns.len()),
            )
            &&& keys_in_range(
                after,
                family_min(INDEX_META, name),
                family_max(INDEX_META, name),
                index_meta_keys(name, t.indexes.len()),
            )
            &&& forall|i: int|
                0 <= i < t.columns.len() ==> after[#[trigger] column_keys(
                    name,
                    t.columns.len(),
                )[i]] == column_bytes(t.columns[i])
            &&& forall|i: int|
                0 <= i < t.indexes.len() ==> after[#[trigger] index_meta_keys(
                    name,
                    t.indexes.len(),
                )[i]] == index_meta_bytes(t.indexes[i])
            &&& after.contains_key(root_key(name))
            &&& after[root_key(name)] == encode_utf8(name)
            &&& forall|k: Seq<u8>|
                #[trigger] after.contains_key(k) && in_family(k, ROOT, name) ==> k == root_key(name)
                    || (m.contains_key(k) && after[k] == m[k])
            &&& forall|k: Seq<u8>|
                m.contains_key(k) && in_family(k, ROOT, name) ==> #[trigger] after.contains_key(k)
        }),
{
    let t = created(name, cols);
    let n = t.columns.len();
    lemma_derived_ids(t.columns);
    let n2 = t.indexes.len();
    let cks = column_keys(name, n);
    let mks = index_meta_keys(name, n2);
    let cvs = Seq::new(n, |i: int| column_bytes(t.columns[i]));
    let mvs = Seq::new(n2, |i: int| index_meta_bytes(t.indexes[i]));
    let first = seq![WriteView::Put { key: root_key(name), value: encode_utf8(name) }];
    assert(index_meta_writes(name, t.indexes) =~= puts(mks, mvs));
    assert(column_writes(name, t.columns) =~= puts(cks, cvs));
    lemma_apply_concat(m, first + puts(mks, mvs), puts(cks, cvs));
    lemma_apply_concat(m, first, puts(mks, mvs));
    let m1 = apply_all(m, first);
    assert(m1 == m.insert(root_key(name), encode_utf8(name))) by {
        reveal_with_fuel(apply_all, 2);
        assert(first.drop_last() =~= Seq::empty());
        assert(first.last() == WriteView::Put { key: root_key(name), value: encode_utf8(name) });
    }
    let m2 = apply_all(m1, puts(mks, mvs));
    let after = apply_all(m2, puts(cks, cvs));
    lemma_numbered_keys_ascend(name, n);
    lemma_numbered_keys_ascend(name, n2);
    lemma_puts(m1, mks, mvs);
    lemma_puts(m2, cks, cvs);
    lemma_codec_keys(name, 0, ValueView::Null, Seq::empty());
    lemma_exactly_one_family(root_key(name), ROOT, name, COLUMN, name);
    lemma_exactly_one_family(root_key(name), ROOT, name, INDEX_META, name);
    lemma_exactly_one_family(root_key(name), ROOT, name, ROOT, name);
    assert forall|i: int| 0 <= i < n implies in_family(#[trigger] cks[i], COLUMN, name)
        && !in_family(cks[i], INDEX_META, name) && !in_family(cks[i], ROOT, name) by {
        lemma_codec_keys(name, i as u32, ValueView::Null, Seq::empty());
        lemma_exactly_one_family(cks[i], COLUMN, name, COLUMN, name);
        lemma_exactly_one_family(cks[i], COLUMN, name, INDEX_META, name);
        lemma_exactly_one_family(cks[i], COLUMN, name, ROOT, name);
    }
    assert forall|i: int| 0 <= i < n2 implies in_family(#[trigger] mks[i], INDEX_META, name)
        && !in_family(mks[i], COLUMN, name) && !in_family(mks[i], ROOT, name) by {
        lemma_codec_keys(name, i as u32, ValueView::Null, Seq::empty());
        lemma_exactly_one_family(mks[i], INDEX_META, name, COLUMN, name);
        lemma_exactly_one_family(mks[i], INDEX_META, name, INDEX_META, name);
        lemma_exactly_one_family(mks[i], INDEX_META, name, ROOT, name);
    }
    assert forall|k: Seq<u8>| cks.contains(k) implies in_family(k, COLUMN, name) && !in_family(
        k,
        INDEX_META,
        name,
    ) && !in_family(k, ROOT, name) by {
        let i = choose|i: int| 0 <= i < cks.len() && cks[i] == k;
    }
    assert forall|k: Seq<u8>| mks.contains(k) implies in_family(k, INDEX_META, name)
        && !in_family(k, COLUMN, name) && !in_family(k, ROOT, name) by {
        let i = choose|i: int| 0 <= i < mks.len() && mks[i] == k;
    }
    assert forall|k: Seq<u8>|
        after.contains_key(k) && in_family(k, COLUMN, name) implies exists|j: int|
        0 <= j < cks.len() && #[trigger] cks[j] == k by {
        assert(m2.contains_key(k) || cks.contains(k));
        if !cks.contains(k) {
            assert(m1.contains_key(k) || mks.contains(k));
        }
    }
    assert forall|k: Seq<u8>|
        after.contains_key(k) && in_family(k, INDEX_META, name) implies exists|j: int|
        0 <= j < mks.len() && #[trigger] mks[j] == k by {
        assert(m2.contains_key(k) || cks.contains(k));
        assert(m1.contains_key(k) || mks.contains(k));
    }
    assert forall|i: int| 0 <= i < n2 implies after.contains_key(#[trigger] mks[i]) && after[mks[i]]
        == mvs[i] by {
        assert(mks.contains(mks[i]));
        assert(m2.contains_key(mks[i]));
        assert(!cks.contains(mks[i]));
    }
    assert forall|i: int| 0 <= i < n implies after.contains_key(#[trigger] cks[i]) by {
        assert(cks.contains(cks[i]));
    }
    assert(m1.contains_key(root_key(name)));
    assert(m2.contains_key(root_key(name)) && m2[root_key(name)] == encode_utf8(name)) by {
        assert(!mks.contains(root_key(name)));
    }
    assert(after.contains_key(root_key(name)) && after[root_key(name)] == encode_utf8(name)) by {
        assert(!cks.contains(root_key(name)));
    }
    assert forall|k: Seq<u8>|
        #[trigger] after.contains_key(k) && in_family(k, ROOT, name) implies k == root_key(name)
        || (m.contains_key(k) && after[k] == m[k]) by {
        assert(m2.contains_key(k) || cks.contains(k));
        assert(m1.contains_key(k) || mks.contains(k));
        if k != root_key(name) {
            assert(m.contains_key(k));
            assert(m1[k] == m[k]);
            assert(m2[k] == m1[k]);
            assert(after[k] == m2[k]);
        }
    }
    assert forall|k: Seq<u8>|
        m.contains_key(k) && in_family(k, ROOT, name) implies #[trigger] after.contains_key(k) by {
        assert(m1.contains_key(k));
        assert(m2.contains_key(k));
    }
}

/// After `create_table`, the table is found: put together from the scans
/// of its column descriptions and index descriptions, it is the table that
/// was made, with its columns in the order given. This holds of a store
/// that held no description of a table of that name before.
pub proof fn lemma_created_table_is_found(
    m: Store,
    name: Seq<char>,
    cols: Seq<ColumnView>,
    columns: Seq<EntryView>,
    index_metas: Seq<EntryView>,
)
    requires
        creatable(name, cols),
        family_empty(m, COLUMN, name),
        family_empty(m, INDEX_META, name),
        scan_of(
            columns,
            apply_all(m, create_writes(created(name, cols))),
            family_min(COLUMN, name),
            family_max(COLUMN, name),
        ),
        scan_of(
            index_metas,
            apply_all(m, create_writes(created(name, cols))),
            family_min(INDEX_META, name),
            family_max(INDEX_META, name),
        ),
    ensures
        table_of(name, columns, index_metas) == Some(created(name, cols)),
{
    let t = created(name, cols);
    let after = apply_all(m, create_writes(t));
    let n = t.columns.len();
    let n2 = t.indexes.len();
    lemma_derived_ids(t.columns);
    lemma_store_after_create(m, name, cols);
    lemma_numbered_keys_ascend(name, n);
    lemma_numbered_keys_ascend(name, n2);
    lemma_scan_payloads(
        columns,
        after,
        family_min(COLUMN, name),
        family_max(COLUMN, name),
        column_keys(name, n),
    );
    lemma_scan_payloads(
        index_metas,
        after,
        family_min(INDEX_META, name),
        family_max(INDEX_META, name),
        index_meta_keys(name, n2),
    );
    lemma_read_from_payloads(columns);
    lemma_read_from_payloads(index_metas);
    assert(payloads(columns) =~= Seq::new(n, |i: int| column_bytes(t.columns[i])));
    assert(payloads(index_metas) =~= Seq::new(n2, |i: int| index_meta_bytes(t.indexes[i])));
    lemma_columns_read_back(t.columns);
    lemma_indexes_read_back(t.indexes);
    assert(placed(t.columns, name) =~= t.columns);
    assert(names_distinct(t.columns));
}

} // verus!

verus! {

/// Every entry of the directory is the entry of a table: it stands under
/// the key of a name and spells that name.
pub open spec fn directory_ok(m: Store) -> bool {
    forall|k: Seq<u8>|
        #[trigger] m.contains_key(k) && in_family(k, ROOT, Seq::empty()) ==> exists|n: Seq<char>|
            k == #[trigger] root_key(n) && m[k] == encode_utf8(n)
}

/// How often a name occurs among names.
pub open spec fn occurrences(names: Seq<Seq<char>>, name: Seq<char>) -> nat
    decreases names.len(),
{
    if names.len() == 0 {
        0
    } else {
        occurrences(names.drop_last(), name) + if names.last() == name {
            1nat
        } else {
            0nat
        }
    }
}

/// A scan of a directory in which every entry is the entry of a table, no
/// two under one key.
pub open spec fn directory_scan(es: Seq<EntryView>) -> bool {
    &&& forall|i: int, j: int|
        0 <= i < j < es.len() ==> (#[trigger] es[i]).key != (#[trigger] es[j]).key
    &&& forall|i: int|
        0 <= i < es.len() && (#[trigger] es[i]).value is Some ==> exists|n: Seq<char>|
            es[i].key == #[trigger] root_key(n) && es[i].value == Some(encode_utf8(n))
}

/// The scan hands out a payload under the key of the table.
pub open spec fn lists(es: Seq<EntryView>, name: Seq<char>) -> bool {
    exists|i: int|
        0 <= i < es.len() && (#[trigger] es[i]).key == root_key(name) && es[i].value is Some
}

/// Different names have different keys in the directory.
pub proof fn lemma_root_key_injective(a: Seq<char>, b: Seq<char>)
    requires
        root_key(a) == root_key(b),
    ensures
        a == b,
{
    let p = family_min(ROOT, a);
    assert(family_min(ROOT, b) == p);
    assert(encode_utf8(a) =~= root_key(a).subrange(p.len() as int, root_key(a).len() as int));
    assert(encode_utf8(b) =~= root_key(b).subrange(p.len() as int, root_key(b).len() as int));
    vstd::utf8::encode_utf8_decode_utf8(a);
    vstd::utf8::encode_utf8_decode_utf8(b);
}

/// The names that a scan of the directory lists: each table once whose
/// entry the scan hands out.
pub proof fn lemma_listing(es: Seq<EntryView>, name: Seq<char>)
    requires
        directory_scan(es),
    ensures
        listed(es) matches Some(names) && occurrences(names, name) == (if lists(es, name) {
            1nat
        } else {
            0nat
        }),
    decreases es.len(),
{
    if es.len() > 0 {
        let rest = es.drop_last();
        let n = es.len() - 1;
        assert(forall|i: int| 0 <= i < n ==> rest[i] == es[i]);
        lemma_listing(rest, name);
        let before = listed(rest)->0;
        match es.last().value {
            None => {
                if lists(es, name) {
                    let i = choose|i: int|
                        0 <= i < es.len() && (#[trigger] es[i]).key == root_key(name)
                            && es[i].value is Some;
                    assert(rest[i] == es[i]);
                }
                if lists(rest, name) {
                    let i = choose|i: int|
                        0 <= i < rest.len() && (#[trigger] rest[i]).key == root_key(name)
                            && rest[i].value is Some;
                    assert(es[i] == rest[i]);
                }
            },
            Some(v) => {
                assert(es[n].value is Some);
                let own = choose|own: Seq<char>|
                    es[n].key == #[trigger] root_key(own) && es[n].value == Some(
                        encode_utf8(own),
                    );
                lemma_name_round_trip(own);
                assert(before.push(own).drop_last() =~= before);
                if own == name {
                    if lists(rest, name) {
                        let i = choose|i: int|
                            0 <= i < rest.len() && (#[trigger] rest[i]).key == root_key(name)
                                && rest[i].value is Some;
                        assert(es[i].key != es[n].key);
                    }
                    assert(es[n].key == root_key(name) && es[n].value is Some);
                } else {
                    if root_key(own) == root_key(name) {
                        lemma_root_key_injective(own, name);
                    }
                    if lists(es, name) {
                        let i = choose|i: int|
                            0 <= i < es.len() && (#[trigger] es[i]).key == root_key(name)
                                && es[i].value is Some;
                        assert(i != n);
                        assert(rest[i] == es[i]);
                    }
                    if lists(rest, name) {
                        let i = choose|i: int|
                            0 <= i < rest.len() && (#[trigger] rest[i]).key == root_key(name)
                                && rest[i].value is Some;
                        assert(es[i] == rest[i]);
                    }
                }
            },
        }
    }
}

/// After `create_table`, the table is listed exactly once. This holds of
/// a store whose directory held entries of tables only and none of this
/// table, and which held no description of a table of that name.
pub proof fn lemma_created_table_is_listed_once(
    m: Store,
    name: Seq<char>,
    cols: Seq<ColumnView>,
    roots: Seq<EntryView>,
)
    requires
        creatable(name, cols),
        family_empty(m, COLUMN, name),
        family_empty(m, INDEX_META, name),
        directory_ok(m),
        !m.contains_key(root_key(name)),
        scan_of(
            roots,
            apply_all(m, create_writes(created(name, cols))),
            family_min(ROOT, Seq::empty()),
            family_max(ROOT, Seq::empty()),
        ),
    ensures
        listed(roots) matches Some(names) && occurrences(names, name) == 1,
{
    let after = apply_all(m, create_writes(created(name, cols)));
    lemma_store_after_create(m, name, cols);
    assert(family_min(ROOT, name) == family_min(ROOT, Seq::empty()));
    assert(family_max(ROOT, name) == family_max(ROOT, Seq::empty()));
    assert forall|i: int, j: int| 0 <= i < j < roots.len() implies (#[trigger] roots[i]).key != (
    #[trigger] roots[j]).key by {
        lemma_lt_irreflexive(roots[i].key);
    }
    assert forall|i: int|
        0 <= i < roots.len() && (#[trigger] roots[i]).value is Some implies exists|n: Seq<char>|
        roots[i].key == #[trigger] root_key(n) && roots[i].value == Some(encode_utf8(n)) by {
        let k = roots[i].key;
        assert(after.contains_key(k) && in_family(k, ROOT, name));
        if k == root_key(name) {
            assert(roots[i].key == root_key(name) && roots[i].value == Some(encode_utf8(name)));
        } else {
            assert(m.contains_key(k) && in_family(k, ROOT, Seq::empty()));
            let n = choose|n: Seq<char>| k == #[trigger] root_key(n) && m[k] == encode_utf8(n);
            assert(roots[i].key == root_key(n) && roots[i].value == Some(encode_utf8(n)));
        }
    }
    lemma_codec_keys(name, 0, ValueView::Null, Seq::empty());
    lemma_exactly_one_family(root_key(name), ROOT, name, ROOT, name);
    let i = choose|i: int| 0 <= i < roots.len() && (#[trigger] roots[i]).key == root_key(name);
    assert(roots[i].value is Some);
    assert(lists(roots, name));
    lemma_listing(roots, name);
}

/// Keys of integers are ordered as the integers are: the key of a row
/// comes before the key of another exactly when its primary key value is
/// the smaller, and so do the entries of an index on one column.
pub proof fn lemma_integer_keys_in_order(table: Seq<char>, index: u32, x: i32, y: i32)
    ensures
        x < y <==> lex_lt(
            tuple_key(table, ValueView::Int32(Some(x))),
            tuple_key(table, ValueView::Int32(Some(y))),
        ),
        x < y <==> lex_lt(
            index_key(table, index, seq![ValueView::Int32(Some(x))]),
            index_key(table, index, seq![ValueView::Int32(Some(y))]),
        ),
{
    let a = be32(flip32(x));
    let b = be32(flip32(y));
    let tag = seq![2u8, 1u8];
    lemma_be32_order(flip32(x), flip32(y));
    lemma_keys_in_order(table, index, ValueView::Int32(Some(x)), ValueView::Int32(Some(y)));
    if lex_lt(a, b) {
        lemma_lt_shift(tag, a, b);
    }
    if lex_lt(tag + a, tag + b) {
        lemma_lt_unshift(tag, a, b);
    }
}

/// Keys of wide integers are ordered as the integers are.
pub proof fn lemma_wide_integer_keys_in_order(table: Seq<char>, index: u32, x: i64, y: i64)
    ensures
        x < y <==> lex_lt(
            tuple_key(table, ValueView::Int64(Some(x))),
            tuple_key(table, ValueView::Int64(Some(y))),
        ),
        x < y <==> lex_lt(
            index_key(table, index, seq![ValueView::Int64(Some(x))]),
            index_key(table, index, seq![ValueView::Int64(Some(y))]),
        ),
{
    let a = be64(flip64(x));
    let b = be64(flip64(y));
    let tag = seq![3u8, 1u8];
    lemma_be64_order(flip64(x), flip64(y));
    lemma_keys_in_order(table, index, ValueView::Int64(Some(x)), ValueView::Int64(Some(y)));
    if lex_lt(a, b) {
        lemma_lt_shift(tag, a, b);
    }
    if lex_lt(tag + a, tag + b) {
        lemma_lt_unshift(tag, a, b);
    }
}

/// The keys of two values are ordered as the forms of the values are.
pub proof fn lemma_keys_in_order(table: Seq<char>, index: u32, v: ValueView, w: ValueView)
    ensures
        lex_lt(tuple_key(table, v), tuple_key(table, w)) <==> lex_lt(
            value_bytes(v),
            value_bytes(w),
        ),
        lex_lt(index_key(table, index, seq![v]), index_key(table, index, seq![w])) <==> lex_lt(
            value_bytes(v),
            value_bytes(w),
        ),
{
    let p = family_min(TUPLE, table);
    let q = index_prefix(table, index) + seq![0u8];
    reveal_with_fuel(values_bytes, 2);
    assert(seq![v].drop_last() =~= Seq::<ValueView>::empty());
    assert(seq![w].drop_last() =~= Seq::<ValueView>::empty());
    assert(values_bytes(seq![v]) =~= value_bytes(v));
    assert(values_bytes(seq![w]) =~= value_bytes(w));
    if lex_lt(value_bytes(v), value_bytes(w)) {
        lemma_lt_shift(p, value_bytes(v), value_bytes(w));
        lemma_lt_shift(q, value_bytes(v), value_bytes(w));
    }
    if lex_lt(p + value_bytes(v), p + value_bytes(w)) {
        lemma_lt_unshift(p, value_bytes(v), value_bytes(w));
    }
    if lex_lt(q + value_bytes(v), q + value_bytes(w)) {
        lemma_lt_unshift(q, value_bytes(v), value_bytes(w));
    }
}

} // verus!

verus! {

/// The scan hands out a payload under the key.
pub open spec fn hands_out(es: Seq<EntryView>, k: Seq<u8>) -> bool {
    exists|i: int| 0 <= i < es.len() && (#[trigger] es[i]).key == k && es[i].value is Some
}

/// The removals of what a scan found leave in the store what the scan did
/// not find, as it was.
pub proof fn lemma_removals(m: Store, es: Seq<EntryView>)
    ensures
        forall|k: Seq<u8>|
            #[trigger] apply_all(m, removals(es)).contains_key(k) <==> m.contains_key(k)
                && !hands_out(es, k),
        forall|k: Seq<u8>|
            #[trigger] apply_all(m, removals(es)).contains_key(k) ==> apply_all(
                m,
                removals(es),
            )[k] == m[k],
    decreases es.len(),
{
    if es.len() > 0 {
        let rest = es.drop_last();
        let n = es.len() - 1;
        lemma_removals(m, rest);
        assert(forall|i: int| 0 <= i < n ==> rest[i] == es[i]);
        let mid = apply_all(m, removals(rest));
        let after = apply_all(m, removals(es));
        if es.last().value is Some {
            assert(removals(es).drop_last() =~= removals(rest));
            assert(after == mid.remove(es.last().key));
        }
        assert forall|k: Seq<u8>| #[trigger] after.contains_key(k) <==> m.contains_key(k)
            && !hands_out(es, k) by {
            if hands_out(rest, k) {
                let i = choose|i: int|
                    0 <= i < rest.len() && (#[trigger] rest[i]).key == k && rest[i].value is Some;
                assert(es[i].key == k && es[i].value is Some);
            }
            if hands_out(es, k) {
                let i = choose|i: int|
                    0 <= i < es.len() && (#[trigger] es[i]).key == k && es[i].value is Some;
                if i < n {
                    assert(rest[i].key == k && rest[i].value is Some);
                }
            }
            if es.last().value is Some && es.last().key == k {
                assert(es[n].key == k && es[n].value is Some);
            }
        }
    }
}

/// After the removals of what a scan of a range found, the store holds
/// nothing in that range.
pub proof fn lemma_range_emptied(m: Store, es: Seq<EntryView>, min: Seq<u8>, max: Seq<u8>)
    requires
        scan_of(es, m, min, max),
    ensures
        forall|k: Seq<u8>|
            #[trigger] apply_all(m, removals(es)).contains_key(k) <==> m.contains_key(k)
                && !in_range(k, min, max),
        forall|k: Seq<u8>|
            #[trigger] apply_all(m, removals(es)).contains_key(k) ==> apply_all(
                m,
                removals(es),
            )[k] == m[k],
{
    lemma_removals(m, es);
    assert forall|k: Seq<u8>| m.contains_key(k) implies (hands_out(es, k) <==> in_range(
        k,
        min,
        max,
    )) by {
        if in_range(k, min, max) {
            let i = choose|i: int| 0 <= i < es.len() && (#[trigger] es[i]).key == k;
            assert(es[i].value is Some);
        }
        if hands_out(es, k) {
            let i = choose|i: int|
                0 <= i < es.len() && (#[trigger] es[i]).key == k && es[i].value is Some;
            assert(in_range(es[i].key, min, max));
        }
    }
}

/// After `drop_table`, the table is gone: put together from scans of the
/// store, it is absent, and the directory has no entry for it. For this
/// the scan of the table's column descriptions that `drop_table` is given
/// must be that of the store before the drop.
pub proof fn lemma_dropped_table_is_absent(
    m: Store,
    name: Seq<char>,
    tuples: Seq<EntryView>,
    indexes: Seq<EntryView>,
    columns: Seq<EntryView>,
    index_metas: Seq<EntryView>,
    columns_after: Seq<EntryView>,
    index_metas_after: Seq<EntryView>,
)
    requires
        scan_of(columns, m, family_min(COLUMN, name), family_max(COLUMN, name)),
        scan_of(
            columns_after,
            apply_all(m, drop_writes(name, tuples, indexes, columns, index_metas)),
            family_min(COLUMN, name),
            family_max(COLUMN, name),
        ),
    ensures
        table_of(name, columns_after, index_metas_after) is None,
        !apply_all(m, drop_writes(name, tuples, indexes, columns, index_metas)).contains_key(
            root_key(name),
        ),
{
    let a = removals(tuples);
    let b = removals(indexes);
    let c = removals(columns);
    let d = removals(index_metas);
    let last = seq![WriteView::Remove { key: root_key(name) }];
    lemma_apply_concat(m, a + b + c + d, last);
    lemma_apply_concat(m, a + b + c, d);
    lemma_apply_concat(m, a + b, c);
    lemma_apply_concat(m, a, b);
    let m1 = apply_all(m, a);
    let m2 = apply_all(m1, b);
    let m3 = apply_all(m2, c);
    let m4 = apply_all(m3, d);
    let after = apply_all(m4, last);
    assert(after == m4.remove(root_key(name))) by {
        reveal_with_fuel(apply_all, 2);
        assert(last.drop_last() =~= Seq::empty());
        assert(last.last() == WriteView::Remove { key: root_key(name) });
    }
    lemma_removals(m, tuples);
    lemma_removals(m1, indexes);
    lemma_removals(m2, columns);
    lemma_removals(m3, index_metas);
    assert forall|k: Seq<u8>| after.contains_key(k) implies !in_family(k, COLUMN, name) by {
        assert(m4.contains_key(k));
        assert(m3.contains_key(k));
        assert(m2.contains_key(k) && !hands_out(columns, k));
        assert(m1.contains_key(k));
        assert(m.contains_key(k));
        if in_family(k, COLUMN, name) {
            let i = choose|i: int| 0 <= i < columns.len() && (#[trigger] columns[i]).key == k;
            assert(columns[i].value is Some);
        }
    }
    assert forall|i: int| 0 <= i < columns_after.len() implies (
    #[trigger] columns_after[i]).value is None by {}
    lemma_no_payloads(columns_after);
    lemma_read_from_payloads(columns_after);
}

/// A scan that hands out no payload hands out no payloads.
pub proof fn lemma_no_payloads(es: Seq<EntryView>)
    requires
        forall|i: int| 0 <= i < es.len() ==> (#[trigger] es[i]).value is None,
    ensures
        payloads(es) == Seq::<Seq<u8>>::empty(),
    decreases es.len(),
{
    if es.len() > 0 {
        assert(forall|i: int| 0 <= i < es.len() - 1 ==> es.drop_last()[i] == es[i]);
        lemma_no_payloads(es.drop_last());
    }
}

} // verus!

verus! {

/// The entry holds a payload that is no description of a column.
pub open spec fn no_column(e: EntryView) -> bool {
    match e.value {
        Some(bytes) => column_of_bytes(bytes) is None,
        None => false,
    }
}

/// The entry holds a payload that is no description of an index.
pub open spec fn no_index(e: EntryView) -> bool {
    match e.value {
        Some(bytes) => index_meta_of_bytes(bytes) is None,
        None => false,
    }
}

/// A scan hands out a payload that is no description of a column.
pub open spec fn has_unreadable_column(es: Seq<EntryView>) -> bool {
    exists|i: int| 0 <= i < es.len() && no_column(#[trigger] es[i])
}

/// A scan hands out a payload that is no description of an index.
pub open spec fn has_unreadable_index(es: Seq<EntryView>) -> bool {
    exists|i: int| 0 <= i < es.len() && no_index(#[trigger] es[i])
}

/// Descriptions are read out of a scan exactly when each payload that the
/// scan hands out is a description.
pub proof fn lemma_read_or_unreadable(es: Seq<EntryView>)
    ensures
        collected_columns(es) is None <==> has_unreadable_column(es),
        collected_indexes(es) is None <==> has_unreadable_index(es),
    decreases es.len(),
{
    if es.len() > 0 {
        let rest = es.drop_last();
        let n = es.len() - 1;
        lemma_read_or_unreadable(rest);
        assert(forall|i: int| 0 <= i < n ==> rest[i] == es[i]);
        if has_unreadable_column(rest) {
            let i = choose|i: int| 0 <= i < rest.len() && no_column(#[trigger] rest[i]);
            assert(es[i] == rest[i]);
        }
        if has_unreadable_index(rest) {
            let i = choose|i: int| 0 <= i < rest.len() && no_index(#[trigger] rest[i]);
            assert(es[i] == rest[i]);
        }
        if has_unreadable_column(es) {
            let i = choose|i: int| 0 <= i < es.len() && no_column(#[trigger] es[i]);
            if i < n {
                assert(rest[i] == es[i]);
            }
        }
        if has_unreadable_index(es) {
            let i = choose|i: int| 0 <= i < es.len() && no_index(#[trigger] es[i]);
            if i < n {
                assert(rest[i] == es[i]);
            }
        }
        assert(es[n] == es.last());
    }
}

/// A table of which one stored description cannot be read is absent: no
/// table is put together from the descriptions that can be read.
pub proof fn lemma_unreadable_description_makes_table_absent(
    name: Seq<char>,
    columns: Seq<EntryView>,
    index_metas: Seq<EntryView>,
)
    requires
        has_unreadable_column(columns) || has_unreadable_index(index_metas),
    ensures
        table_of(name, columns, index_metas) is None,
{
    lemma_read_or_unreadable(columns);
    lemma_read_or_unreadable(index_metas);
}

/// The table that is put together from scans bears its indexes with the
/// numbers they are stored with.
pub proof fn lemma_index_numbers_are_kept(
    name: Seq<char>,
    columns: Seq<EntryView>,
    index_metas: Seq<EntryView>,
)
    requires
        table_of(name, columns, index_metas) is Some,
    ensures
        collected_indexes(index_metas) == Some(table_of(name, columns, index_metas)->0.indexes),
{
}

} // verus!
