//! The cursor over the rows of a table.
use crate::catalog::column::{clone_columns, ColumnCatalog, ColumnView};
use crate::catalog::table::TableCatalog;
use crate::expression::scalar::{ExprView, ScalarExpression};
use crate::storage::kip::{Entry, EntryView, StorageError};
use crate::storage::table_codec::{tuple_of_bytes, CodecError, TableCodec};
use crate::types::tuple::{Tuple, TupleView};
use crate::types::value::{views, DataValue, TypeError, ValueView};
use crate::util::attempt::{attempt_all, lemma_attempt_none, lemma_attempt_step, lemma_attempt_stop};
use vstd::prelude::*;

verus! {

/// How many rows to pass over, and how many to hand out at most.
pub type Bounds = (Option<usize>, Option<usize>);

/// The expressions that each row handed out is made of.
pub type Projections = Vec<ScalarExpression>;

/// The entries from place `from` on that hold a payload, in order.
pub open spec fn live_from(es: Seq<EntryView>, from: int) -> Seq<EntryView>
    decreases es.len() - from,
{
    if from < 0 || from >= es.len() {
        Seq::empty()
    } else if es[from].value is Some {
        seq![es[from]] + live_from(es, from + 1)
    } else {
        live_from(es, from + 1)
    }
}

/// The first `limit` of the entries, or all of them where there is no
/// limit.
pub open spec fn capped(s: Seq<EntryView>, limit: Option<usize>) -> Seq<EntryView> {
    match limit {
        Some(k) => if k < s.len() {
            s.take(k as int)
        } else {
            s
        },
        None => s,
    }
}

/// A limit holds the entries down to itself.
pub proof fn lemma_capped_len(s: Seq<EntryView>, limit: Option<usize>)
    ensures
        capped(s, limit).len() <= s.len(),
        limit matches Some(k) ==> capped(s, limit).len() <= k,
{
}

/// The values of the expressions on a row.
pub open spec fn evaluated(t: TupleView, projections: Seq<ExprView>) -> Result<
    Seq<ValueView>,
    TypeError,
> {
    attempt_all(projections, |i: int, p: ExprView| p.eval(t))
}

/// The columns under which the expressions' values appear.
pub open spec fn outputs(projections: Seq<ExprView>) -> Seq<ColumnView> {
    projections.map_values(|p: ExprView| p.output_column())
}

/// The row that the expressions make of a row: their values under their
/// columns, with the row's primary key value.
pub open spec fn projected(t: TupleView, projections: Seq<ExprView>) -> Result<
    TupleView,
    StorageError,
> {
    match evaluated(t, projections) {
        Err(e) => Err(StorageError::Type(e)),
        Ok(values) => Ok(TupleView { id: t.id, columns: outputs(projections), values }),
    }
}

/// The row that a payload holds, projected.
pub open spec fn row_of(bytes: Seq<u8>, columns: Seq<ColumnView>, projections: Seq<ExprView>)
    -> Result<TupleView, StorageError> {
    match tuple_of_bytes(columns, bytes) {
        None => Err(StorageError::Codec(CodecError::DecodeError)),
        Some(t) => projected(t, projections),
    }
}

/// One less, where there is a limit.
pub open spec fn spent(limit: Option<usize>) -> Option<usize> {
    match limit {
        Some(k) => Some(if k > 0 {
            (k - 1) as usize
        } else {
            0usize
        }),
        None => None,
    }
}

/// Projects a row, and counts it against the limit.
#[verifier::loop_isolation(false)]
pub fn tuple_projection(limit: &mut Option<usize>, projections: &Projections, tuple: Tuple) -> (r:
    Result<Tuple, StorageError>)
    ensures
        match projected(tuple@, views(projections@)) {
            Ok(t) => r matches Ok(x) && x@ == t && *final(limit) == spent(*old(limit)),
            Err(e) => r == Err::<Tuple, StorageError>(e) && *final(limit) == *old(limit),
        },
{
    let ghost ps = views(projections@);
    let ghost f = |i: int, p: ExprView| p.eval(tuple@);
    let mut columns: Vec<ColumnCatalog> = Vec::new();
    let mut values: Vec<DataValue> = Vec::new();
    let mut i: usize = 0;
    proof {
        lemma_attempt_none(ps, f);
        assert(views(values@) =~= Seq::empty());
    }
    while i < projections.len()
        invariant
            i <= projections@.len(),
            columns@.len() == i,
            *limit == *old(limit),
            forall|j: int| 0 <= j < i ==> (#[trigger] columns@[j])@ == ps[j].output_column(),
            attempt_all(ps.take(i as int), f) == Ok::<Seq<ValueView>, TypeError>(views(values@)),
        decreases projections@.len() - i,
    {
        proof {
            lemma_attempt_step(ps, f, i as int);
            assert(ps[i as int] == projections@[i as int]@);
        }
        match projections[i].eval_column(&tuple) {
            Ok(v) => {
                assert(views(values@).push(v@) =~= views(values@.push(v)));
                values.push(v);
            },
            Err(e) => {
                proof {
                    lemma_attempt_stop(ps, f, i + 1);
                }
                return Err(StorageError::Type(e));
            },
        }
        columns.push(projections[i].output_column());
        i += 1;
    }
    assert(ps.take(i as int) =~= ps);
    assert(views(columns@) =~= outputs(ps));
    match limit {
        Some(k) => {
            if *k > 0 {
                *k = *k - 1;
            }
        },
        None => {},
    }
    Ok(Tuple { id: tuple.id, columns, values })
}

/// A cursor over the scan of a table's rows.
pub struct KipIter {
    pub offset: usize,
    pub limit: Option<usize>,
    pub projections: Projections,
    pub all_columns: Vec<ColumnCatalog>,
    pub entries: Vec<Entry>,
    pub pos: usize,
}

impl KipIter {
    /// The place of the first entry that is not passed over.
    pub open spec fn start(&self) -> int {
        if self.pos + self.offset <= self.entries@.len() {
            self.pos + self.offset
        } else {
            self.entries@.len() as int
        }
    }

    /// The entries whose rows are still to come, in order.
    pub open spec fn upcoming(&self) -> Seq<EntryView> {
        capped(live_from(views(self.entries@), self.start()), self.limit)
    }

    /// The next row: the first `offset` entries of the scan are passed
    /// over, whether they hold a payload or not; entries without a payload
    /// are passed over; each row handed out counts against the limit.
    pub fn next_tuple(&mut self) -> (r: Result<Option<Tuple>, StorageError>)
        ensures
            final(self).projections == old(self).projections,
            final(self).all_columns == old(self).all_columns,
            final(self).entries == old(self).entries,
            old(self).upcoming().len() == 0 ==> r == Ok::<Option<Tuple>, StorageError>(None)
                && final(self).upcoming().len() == 0,
            old(self).upcoming().len() > 0 ==> match row_of(
                old(self).upcoming()[0].value->0,
                views(old(self).all_columns@),
                views(old(self).projections@),
            ) {
                Ok(t) => r matches Ok(Some(x)) && x@ == t && final(self).upcoming()
                    == old(self).upcoming().skip(1),
                Err(e) => r == Err::<Option<Tuple>, StorageError>(e) && final(self).limit
                    == old(self).limit && live_from(
                    views(old(self).entries@),
                    final(self).start(),
                ) == live_from(
                    views(old(self).entries@),
                    old(self).start(),
                ).skip(1),
            },
    {
        let ghost es = views(self.entries@);
        if self.pos > self.entries.len() || self.offset > self.entries.len() - self.pos {
            self.pos = self.entries.len();
        } else {
            self.pos = self.pos + self.offset;
        }
        self.offset = 0;
        assert(self.start() == old(self).start());
        if let Some(num) = self.limit {
            if num == 0 {
                return Ok(None);
            }
        }
        while self.pos < self.entries.len()
            invariant
                self.pos <= self.entries@.len(),
                self.offset == 0,
                self.limit == old(self).limit,
                !(self.limit matches Some(k) && k == 0),
                self.projections == old(self).projections,
                self.all_columns == old(self).all_columns,
                self.entries == old(self).entries,
                es == views(self.entries@),
                live_from(es, self.pos as int) == live_from(es, old(self).start()),
            decreases self.entries@.len() - self.pos,
        {
            let at = self.pos;
            self.pos = self.pos + 1;
            assert(es[at as int] == self.entries@[at as int]@);
            if let Some(value) = &self.entries[at].value {
                let ghost rest = live_from(es, at + 1);
                let ghost all = live_from(es, at as int);
                assert(all =~= seq![es[at as int]] + rest);
                assert(old(self).upcoming()[0] == es[at as int]);
                let decoded = TableCodec::decode_tuple(
                    clone_columns(&self.all_columns),
                    value.as_slice(),
                );
                assert(rest =~= all.skip(1));
                let tuple = match decoded {
                    Ok(t) => t,
                    Err(e) => {
                        return Err(StorageError::Codec(e));
                    },
                };
                let r = tuple_projection(&mut self.limit, &self.projections, tuple);
                proof {
                    if r is Ok {
                        assert(capped(rest, self.limit) =~= capped(all, old(self).limit).skip(1));
                    }
                }
                return match r {
                    Ok(t) => Ok(Some(t)),
                    Err(e) => Err(e),
                };
            }
        }
        Ok(None)
    }
}

/// Opens a cursor over the rows of a table, given what is known of the
/// table and the scan of its rows. The cursor will pass over the first
/// `bounds.0` entries of the scan, and hand out at most `bounds.1` rows.
pub fn read(
    table: Option<&TableCatalog>,
    bounds: Bounds,
    projections: Projections,
    entries: Vec<Entry>,
) -> (r: Result<KipIter, StorageError>)
    ensures
        table is None ==> r matches Err(StorageError::TableNotFound),
        table matches Some(t) ==> (r matches Ok(it) && it.pos == 0 && it.projections == projections
            && it.entries == entries && views(it.all_columns@) == t@.columns && it.upcoming()
            == capped(
            live_from(
                views(entries@),
                match bounds.0 {
                    Some(n) => if n <= entries@.len() {
                        n as int
                    } else {
                        entries@.len() as int
                    },
                    None => 0,
                },
            ),
            bounds.1,
        ) && (bounds.1 matches Some(k) ==> it.upcoming().len() <= k)),
{
    match table {
        None => Err(StorageError::TableNotFound),
        Some(t) => {
            let it = KipIter {
                offset: match bounds.0 {
                    Some(n) => n,
                    None => 0,
                },
                limit: bounds.1,
                projections,
                all_columns: t.all_columns(),
                entries,
                pos: 0,
            };
            Ok(it)
        },
    }
}

} // verus!
