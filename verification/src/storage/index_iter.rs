//! The cursor that an index drives.
//!
//! The cursor works off a queue of predicates on the index's key. For an
//! equality it asks the store for one key; for a range it has a scan
//! opened and draws its entries one by one. What it asks for comes back as
//! an event, and each event is answered with the next thing to do: another
//! request to the store, a row to hand out, or the end.
use crate::catalog::column::ColumnView;
use crate::catalog::table::{IndexMeta, TableCatalog};
use crate::expression::scalar::ExprView;
use crate::expression::simplify::{BinaryView, Bound, BoundView, ConstantBinary};
use crate::storage::iter::{projected, spent, tuple_projection, Bounds, Projections};
use crate::storage::keys::{
    family_max, family_min, index_key, index_max, index_min, tuple_key, TUPLE,
};
use crate::storage::kip::{Entry, EntryView, StorageError};
use crate::storage::table_codec::{entry_of_bytes, tuple_of_bytes, CodecError, TableCodec};
use crate::types::tuple::{Index, Tuple, TupleView};
use crate::types::value::{views, DataValue, TupleId, ValueView};
use std::collections::VecDeque;
use vstd::prelude::*;

verus! {

/// One end of a range of keys.
#[derive(Debug, PartialEq, Eq)]
pub enum KeyBound {
    Included(Vec<u8>),
    Excluded(Vec<u8>),
}

pub enum KeyBoundView {
    Included(Seq<u8>),
    Excluded(Seq<u8>),
}

impl View for KeyBound {
    type V = KeyBoundView;

    open spec fn view(&self) -> KeyBoundView {
        match self {
            KeyBound::Included(k) => KeyBoundView::Included(k@),
            KeyBound::Excluded(k) => KeyBoundView::Excluded(k@),
        }
    }
}

/// What the cursor wants done next.
#[derive(Debug, PartialEq, Eq)]
pub enum IndexAction {
    /// Read the payload under the key, and come back with it.
    Get(Vec<u8>),
    /// Open a scan of the range, in place of any scan that is open.
    Open { min: KeyBound, max: KeyBound },
    /// Draw the next entry of the open scan, and come back with it.
    Next,
    /// Hand out the row.
    Yield(Tuple),
    /// There are no more rows.
    Done,
}

pub enum ActionView {
    Get(Seq<u8>),
    Open { min: KeyBoundView, max: KeyBoundView },
    Next,
    Yield(TupleView),
    Done,
}

impl View for IndexAction {
    type V = ActionView;

    open spec fn view(&self) -> ActionView {
        match self {
            IndexAction::Get(k) => ActionView::Get(k@),
            IndexAction::Open { min, max } => ActionView::Open { min: min@, max: max@ },
            IndexAction::Next => ActionView::Next,
            IndexAction::Yield(t) => ActionView::Yield(t@),
            IndexAction::Done => ActionView::Done,
        }
    }
}

/// What came of the cursor's last request.
#[derive(Debug, PartialEq, Eq)]
pub enum IndexEvent {
    /// A row is asked for.
    Start,
    /// The payload under the key that was asked for, if there is one.
    Value(Option<Vec<u8>>),
    /// The scan is open.
    Opened,
    /// The next entry of the scan, or nothing at its end.
    Entry(Option<Entry>),
}

pub enum EventView {
    Start,
    Value(Option<Seq<u8>>),
    Opened,
    Entry(Option<EntryView>),
}

impl View for IndexEvent {
    type V = EventView;

    open spec fn view(&self) -> EventView {
        match self {
            IndexEvent::Start => EventView::Start,
            IndexEvent::Value(v) => EventView::Value(
                match v {
                    Some(b) => Some(b@),
                    None => None,
                },
            ),
            IndexEvent::Opened => EventView::Opened,
            IndexEvent::Entry(e) => EventView::Entry(
                match e {
                    Some(x) => Some(x@),
                    None => None,
                },
            ),
        }
    }
}

/// What the cursor is waiting for.
#[derive(Clone, Copy, Debug, PartialEq, Eq, Structural)]
pub enum Pending {
    /// Nothing: the cursor waits to be asked for a row.
    Nothing,
    /// The payload of a row.
    Row,
    /// The payload of an index entry.
    IndexEntry,
    /// The opening of a scan.
    Opening,
    /// The next entry of the open scan.
    Scope,
}

/// The moving part of a cursor.
pub struct IterView {
    pub offset: usize,
    pub limit: Option<usize>,
    pub binaries: Seq<BinaryView>,
    pub index_values: Seq<ValueView>,
    pub scope_open: bool,
    pub pending: Pending,
}

/// The fixed part of a cursor: the table, whether the index is the
/// primary one, the index's number, and what rows are made of.
pub struct Frame {
    pub table: Seq<char>,
    pub columns: Seq<ColumnView>,
    pub is_primary: bool,
    pub index: u32,
    pub projections: Seq<ExprView>,
}

/// The key under which the index leads to the value: the row's own key for
/// the primary index, the key of the index entry otherwise.
pub open spec fn key_for(f: Frame, v: ValueView) -> Seq<u8> {
    if f.is_primary {
        tuple_key(f.table, v)
    } else {
        index_key(f.table, f.index, seq![v])
    }
}

/// The lower end of the range of keys for a range of values.
pub open spec fn low_end(f: Frame, b: BoundView) -> KeyBoundView {
    match b {
        BoundView::Included(v) => KeyBoundView::Included(key_for(f, v)),
        BoundView::Excluded(v) => KeyBoundView::Excluded(key_for(f, v)),
        BoundView::Unbounded => KeyBoundView::Included(
            if f.is_primary {
                family_min(TUPLE, f.table)
            } else {
                index_min(f.table, f.index)
            },
        ),
    }
}

/// The upper end of the range of keys for a range of values.
pub open spec fn high_end(f: Frame, b: BoundView) -> KeyBoundView {
    match b {
        BoundView::Included(v) => KeyBoundView::Included(key_for(f, v)),
        BoundView::Excluded(v) => KeyBoundView::Excluded(key_for(f, v)),
        BoundView::Unbounded => KeyBoundView::Included(
            if f.is_primary {
                family_max(TUPLE, f.table)
            } else {
                index_max(f.table, f.index)
            },
        ),
    }
}

/// What a cursor that waits for nothing does next: it ends where the limit
/// is used up; else it loads the row of the next primary key value at
/// hand; else it draws from the open scan; else it takes the next
/// predicate, asking for the one key of an equality or opening the scan of
/// a range; and it ends where no predicate is left.
pub open spec fn decide(s: IterView, f: Frame) -> (IterView, ActionView) {
    if s.limit == Some(0usize) {
        (IterView { pending: Pending::Nothing, ..s }, ActionView::Done)
    } else if s.index_values.len() > 0 {
        (
            IterView { index_values: s.index_values.skip(1), pending: Pending::Row, ..s },
            ActionView::Get(tuple_key(f.table, s.index_values[0])),
        )
    } else if s.scope_open {
        (IterView { pending: Pending::Scope, ..s }, ActionView::Next)
    } else if s.binaries.len() > 0 {
        match s.binaries[0] {
            BinaryView::Eq(v) => (
                IterView {
                    binaries: s.binaries.skip(1),
                    pending: if f.is_primary {
                        Pending::Row
                    } else {
                        Pending::IndexEntry
                    },
                    ..s
                },
                ActionView::Get(key_for(f, v)),
            ),
            BinaryView::Scope { min, max } => (
                IterView {
                    binaries: s.binaries.skip(1),
                    scope_open: true,
                    pending: Pending::Opening,
                    ..s
                },
                ActionView::Open { min: low_end(f, min), max: high_end(f, max) },
            ),
        }
    } else {
        (IterView { pending: Pending::Nothing, ..s }, ActionView::Done)
    }
}

/// What the cursor does with the payload of a row: the row is read and
/// projected; it is passed over while rows are to be passed over, and
/// handed out and counted against the limit otherwise.
pub open spec fn materialised(s: IterView, f: Frame, bytes: Seq<u8>) -> Result<
    (IterView, ActionView),
    StorageError,
> {
    match tuple_of_bytes(f.columns, bytes) {
        None => Err(StorageError::Codec(CodecError::DecodeError)),
        Some(t) => match projected(t, f.projections) {
            Err(e) => Err(e),
            Ok(row) => if s.offset > 0 {
                Ok(
                    decide(
                        IterView {
                            offset: (s.offset - 1) as usize,
                            pending: Pending::Nothing,
                            ..s
                        },
                        f,
                    ),
                )
            } else {
                Ok(
                    (
                        IterView { limit: spent(s.limit), pending: Pending::Nothing, ..s },
                        ActionView::Yield(row),
                    ),
                )
            },
        },
    }
}

/// What the cursor does with the payload of an index entry: the primary
/// key values it holds come to hand, behind those already there.
pub open spec fn indexed(s: IterView, f: Frame, bytes: Seq<u8>) -> Result<
    (IterView, ActionView),
    StorageError,
> {
    match entry_of_bytes(bytes) {
        None => Err(StorageError::Codec(CodecError::DecodeError)),
        Some(ids) => Ok(
            decide(
                IterView { index_values: s.index_values + ids, pending: Pending::Nothing, ..s },
                f,
            ),
        ),
    }
}

/// The event answers what the cursor waits for.
pub open spec fn answers(p: Pending, e: EventView) -> bool {
    match p {
        Pending::Nothing => e is Start,
        Pending::Row => e is Value,
        Pending::IndexEntry => e is Value,
        Pending::Opening => e is Opened,
        Pending::Scope => e is Entry,
    }
}

/// What the cursor does on an event. A key that the store does not hold is
/// passed over. An entry of the scan without a payload is passed over; the
/// end of the scan closes it. In a scan of the primary index the entries
/// are the rows themselves; in a scan of another index they lead to rows.
pub open spec fn handle(s: IterView, f: Frame, e: EventView) -> Result<
    (IterView, ActionView),
    StorageError,
> {
    match e {
        EventView::Start => Ok(decide(s, f)),
        EventView::Opened => Ok(decide(IterView { pending: Pending::Nothing, ..s }, f)),
        EventView::Value(None) => Ok(decide(IterView { pending: Pending::Nothing, ..s }, f)),
        EventView::Value(Some(bytes)) => if s.pending is Row {
            materialised(s, f, bytes)
        } else {
            indexed(s, f, bytes)
        },
        EventView::Entry(None) => Ok(
            decide(IterView { scope_open: false, pending: Pending::Nothing, ..s }, f),
        ),
        EventView::Entry(Some(entry)) => match entry.value {
            None => Ok((s, ActionView::Next)),
            Some(bytes) => if f.is_primary {
                materialised(s, f, bytes)
            } else {
                indexed(s, f, bytes)
            },
        },
    }
}

/// A cursor over the rows that an index leads to.
pub struct IndexIter {
    pub offset: usize,
    pub limit: Option<usize>,
    pub projections: Projections,
    pub index_meta: IndexMeta,
    pub table: TableCatalog,
    pub binaries: VecDeque<ConstantBinary>,
    pub index_values: VecDeque<TupleId>,
    pub scope_open: bool,
    pub pending: Pending,
}

impl View for IndexIter {
    type V = IterView;

    open spec fn view(&self) -> IterView {
        IterView {
            offset: self.offset,
            limit: self.limit,
            binaries: views(self.binaries@),
            index_values: views(self.index_values@),
            scope_open: self.scope_open,
            pending: self.pending,
        }
    }
}

impl IndexIter {
    /// The fixed part of the cursor.
    pub open spec fn frame(&self) -> Frame {
        Frame {
            table: self.table@.name,
            columns: self.table@.columns,
            is_primary: self.index_meta.is_primary,
            index: self.index_meta.id,
            projections: views(self.projections@),
        }
    }

    /// The key under which the index leads to the value.
    fn key_of_value(&self, v: &DataValue) -> (k: Vec<u8>)
        ensures
            k@ == key_for(self.frame(), v@),
    {
        if self.index_meta.is_primary {
            TableCodec::encode_tuple_key(self.table.name.as_str(), v)
        } else {
            let mut column_values: Vec<DataValue> = Vec::new();
            column_values.push(v.clone());
            assert(views(column_values@) =~= seq![v@]);
            TableCodec::encode_index_key(
                self.table.name.as_str(),
                &Index::new(self.index_meta.id, column_values),
            )
        }
    }

    /// The range of all keys that the index leads through.
    fn whole_range(&self) -> (r: (Vec<u8>, Vec<u8>))
        ensures
            r.0@ == (if self.index_meta.is_primary {
                family_min(TUPLE, self.table@.name)
            } else {
                index_min(self.table@.name, self.index_meta.id)
            }),
            r.1@ == (if self.index_meta.is_primary {
                family_max(TUPLE, self.table@.name)
            } else {
                index_max(self.table@.name, self.index_meta.id)
            }),
    {
        if self.index_meta.is_primary {
            TableCodec::tuple_bound(self.table.name.as_str())
        } else {
            TableCodec::index_bound(self.table.name.as_str(), self.index_meta.id)
        }
    }

    /// What to do next when nothing is waited for.
    fn decide(&mut self) -> (r: IndexAction)
        ensures
            final(self)@ == decide(old(self)@, old(self).frame()).0,
            r@ == decide(old(self)@, old(self).frame()).1,
            final(self).projections == old(self).projections,
            final(self).index_meta == old(self).index_meta,
            final(self).table == old(self).table,
    {
        if let Some(n) = self.limit {
            if n == 0 {
                self.pending = Pending::Nothing;
                return IndexAction::Done;
            }
        }
        let ghost values = views(self.index_values@);
        match self.index_values.pop_front() {
            Some(id) => {
                assert(views(self.index_values@) =~= values.skip(1));
                assert(values[0] == id@);
                self.pending = Pending::Row;
                return IndexAction::Get(
                    TableCodec::encode_tuple_key(self.table.name.as_str(), &id),
                );
            },
            None => {},
        }
        assert(views(self.index_values@) =~= values);
        if self.scope_open {
            self.pending = Pending::Scope;
            return IndexAction::Next;
        }
        let ghost binaries = views(self.binaries@);
        match self.binaries.pop_front() {
            Some(ConstantBinary::Eq(v)) => {
                assert(views(self.binaries@) =~= binaries.skip(1));
                self.pending = if self.index_meta.is_primary {
                    Pending::Row
                } else {
                    Pending::IndexEntry
                };
                IndexAction::Get(self.key_of_value(&v))
            },
            Some(ConstantBinary::Scope { min, max }) => {
                assert(views(self.binaries@) =~= binaries.skip(1));
                let (lowest, highest) = self.whole_range();
                let low = match &min {
                    Bound::Included(v) => KeyBound::Included(self.key_of_value(v)),
                    Bound::Excluded(v) => KeyBound::Excluded(self.key_of_value(v)),
                    Bound::Unbounded => KeyBound::Included(lowest),
                };
                let high = match &max {
                    Bound::Included(v) => KeyBound::Included(self.key_of_value(v)),
                    Bound::Excluded(v) => KeyBound::Excluded(self.key_of_value(v)),
                    Bound::Unbounded => KeyBound::Included(highest),
                };
                self.scope_open = true;
                self.pending = Pending::Opening;
                IndexAction::Open { min: low, max: high }
            },
            None => {
                assert(views(self.binaries@) =~= binaries);
                self.pending = Pending::Nothing;
                IndexAction::Done
            },
        }
    }

    /// What to do with the payload of a row.
    fn materialise(&mut self, bytes: &Vec<u8>) -> (r: Result<IndexAction, StorageError>)
        ensures
            match materialised(old(self)@, old(self).frame(), bytes@) {
                Ok((s, a)) => r matches Ok(x) && x@ == a && final(self)@ == s,
                Err(e) => r == Err::<IndexAction, StorageError>(e) && final(self)@ == old(self)@,
            },
            final(self).projections == old(self).projections,
            final(self).index_meta == old(self).index_meta,
            final(self).table == old(self).table,
    {
        let tuple = match TableCodec::decode_tuple(self.table.all_columns(), bytes.as_slice()) {
            Ok(t) => t,
            Err(e) => {
                return Err(StorageError::Codec(e));
            },
        };
        if self.offset > 0 {
            let mut unlimited: Option<usize> = None;
            match tuple_projection(&mut unlimited, &self.projections, tuple) {
                Ok(_) => {},
                Err(e) => {
                    return Err(e);
                },
            }
            self.offset = self.offset - 1;
            self.pending = Pending::Nothing;
            Ok(self.decide())
        } else {
            let row = match tuple_projection(&mut self.limit, &self.projections, tuple) {
                Ok(t) => t,
                Err(e) => {
                    return Err(e);
                },
            };
            self.pending = Pending::Nothing;
            Ok(IndexAction::Yield(row))
        }
    }

    /// What to do with the payload of an index entry.
    fn take_entry(&mut self, bytes: &Vec<u8>) -> (r: Result<IndexAction, StorageError>)
        ensures
            match indexed(old(self)@, old(self).frame(), bytes@) {
                Ok((s, a)) => r matches Ok(x) && x@ == a && final(self)@ == s,
                Err(e) => r == Err::<IndexAction, StorageError>(e) && final(self)@ == old(self)@,
            },
            final(self).projections == old(self).projections,
            final(self).index_meta == old(self).index_meta,
            final(self).table == old(self).table,
    {
        let ids = match TableCodec::decode_index(bytes.as_slice()) {
            Ok(ids) => ids,
            Err(e) => {
                return Err(StorageError::Codec(e));
            },
        };
        let ghost before = views(self.index_values@);
        let ghost more = views(ids@);
        let mut ids = ids;
        let mut i: usize = 0;
        while i < ids.len()
            invariant
                i <= ids@.len(),
                more == views(ids@),
                views(self.index_values@) == before + more.take(i as int),
                self.offset == old(self).offset,
                self.limit == old(self).limit,
                self.binaries == old(self).binaries,
                self.scope_open == old(self).scope_open,
                self.projections == old(self).projections,
                self.index_meta == old(self).index_meta,
                self.table == old(self).table,
            decreases ids@.len() - i,
        {
            let id = ids[i].clone();
            proof {
                assert(more[i as int] == ids@[i as int]@);
                assert(views(self.index_values@.push(id)) =~= views(self.index_values@).push(id@));
                assert((before + more.take(i as int)).push(more[i as int]) =~= before + more.take(
                    i + 1,
                ));
            }
            self.index_values.push_back(id);
            i += 1;
        }
        assert(more.take(i as int) =~= more);
        self.pending = Pending::Nothing;
        Ok(self.decide())
    }

    /// Takes what came of the last request, and says what to do next.
    pub fn step(&mut self, event: IndexEvent) -> (r: Result<IndexAction, StorageError>)
        requires
            answers(old(self).pending, event@),
        ensures
            match handle(old(self)@, old(self).frame(), event@) {
                Ok((s, a)) => r matches Ok(x) && x@ == a && final(self)@ == s,
                Err(e) => r == Err::<IndexAction, StorageError>(e) && final(self)@ == old(self)@,
            },
            final(self).projections == old(self).projections,
            final(self).index_meta == old(self).index_meta,
            final(self).table == old(self).table,
    {
        match event {
            IndexEvent::Start => Ok(self.decide()),
            IndexEvent::Opened => {
                self.pending = Pending::Nothing;
                Ok(self.decide())
            },
            IndexEvent::Value(None) => {
                self.pending = Pending::Nothing;
                Ok(self.decide())
            },
            IndexEvent::Value(Some(bytes)) => {
                if self.pending == Pending::Row {
                    self.materialise(&bytes)
                } else {
                    self.take_entry(&bytes)
                }
            },
            IndexEvent::Entry(None) => {
                self.scope_open = false;
                self.pending = Pending::Nothing;
                Ok(self.decide())
            },
            IndexEvent::Entry(Some(entry)) => match entry.value {
                None => Ok(IndexAction::Next),
                Some(bytes) => {
                    if self.index_meta.is_primary {
                        self.materialise(&bytes)
                    } else {
                        self.take_entry(&bytes)
                    }
                },
            },
        }
    }
}

/// Opens a cursor that an index drives, given what is known of the table.
/// The cursor will pass over the first `bounds.0` rows, and hand out at
/// most `bounds.1`.
pub fn read_by_index(
    table: Option<&TableCatalog>,
    bounds: Bounds,
    projections: Projections,
    index_meta: IndexMeta,
    binaries: Vec<ConstantBinary>,
) -> (r: Result<IndexIter, StorageError>)
    ensures
        table is None ==> r matches Err(StorageError::TableNotFound),
        table matches Some(t) ==> (r matches Ok(it) && it@ == (IterView {
            offset: match bounds.0 {
                Some(n) => n,
                None => 0,
            },
            limit: bounds.1,
            binaries: views(binaries@),
            index_values: Seq::empty(),
            scope_open: false,
            pending: Pending::Nothing,
        }) && it.table@ == t@ && it.index_meta == index_meta && it.projections == projections),
{
    match table {
        None => Err(StorageError::TableNotFound),
        Some(t) => {
            let mut queue: VecDeque<ConstantBinary> = VecDeque::new();
            let ghost all = views(binaries@);
            let mut i: usize = 0;
            assert(views(queue@) =~= all.take(0));
            while i < binaries.len()
                invariant
                    i <= binaries@.len(),
                    all == views(binaries@),
                    views(queue@) == all.take(i as int),
                decreases binaries@.len() - i,
            {
                let b = binaries[i].clone();
                assert(all[i as int] == binaries@[i as int]@);
                assert(views(queue@.push(b)) =~= views(queue@).push(b@));
                assert(all.take(i as int).push(all[i as int]) =~= all.take(i + 1));
                queue.push_back(b);
                i += 1;
            }
            assert(all.take(i as int) =~= all);
            let index_values: VecDeque<TupleId> = VecDeque::new();
            assert(views(index_values@) =~= Seq::empty());
            Ok(
                IndexIter {
                    offset: match bounds.0 {
                        Some(n) => n,
                        None => 0,
                    },
                    limit: bounds.1,
                    projections,
                    index_meta,
                    table: t.clone(),
                    binaries: queue,
                    index_values,
                    scope_open: false,
                    pending: Pending::Nothing,
                },
            )
        },
    }
}

} // verus!
