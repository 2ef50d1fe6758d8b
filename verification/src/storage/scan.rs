//! What a scan of a store must hand out, and what a run of writes leaves
//! in a store.
use crate::storage::kip::{apply_all, scan_of, EntryView, Store, WriteView};
use crate::storage::order::{in_range, lemma_lt_asymmetric, lemma_lt_irreflexive, lex_lt};
use vstd::prelude::*;

verus! {

/// The payloads that a scan hands out, in its order.
pub open spec fn payloads(es: Seq<EntryView>) -> Seq<Seq<u8>>
    decreases es.len(),
{
    if es.len() == 0 {
        Seq::empty()
    } else {
        match es.last().value {
            Some(v) => payloads(es.drop_last()).push(v),
            None => payloads(es.drop_last()),
        }
    }
}

/// Each key comes strictly before the next.
pub open spec fn ascending(keys: Seq<Seq<u8>>) -> bool {
    forall|i: int, j: int|
        0 <= i < j < keys.len() ==> lex_lt(#[trigger] keys[i], #[trigger] keys[j])
}

/// `keys` are exactly the keys of `m` in the range.
pub open spec fn keys_in_range(m: Store, min: Seq<u8>, max: Seq<u8>, keys: Seq<Seq<u8>>) -> bool {
    &&& forall|j: int|
        0 <= j < keys.len() ==> m.contains_key(#[trigger] keys[j]) && in_range(keys[j], min, max)
    &&& forall|k: Seq<u8>|
        m.contains_key(k) && in_range(k, min, max) ==> exists|j: int|
            0 <= j < keys.len() && #[trigger] keys[j] == k
}

/// A scan hands out the payloads of the keys of the range, in the order
/// of the keys.
pub proof fn lemma_scan_payloads(
    entries: Seq<EntryView>,
    m: Store,
    min: Seq<u8>,
    max: Seq<u8>,
    keys: Seq<Seq<u8>>,
)
    requires
        scan_of(entries, m, min, max),
        ascending(keys),
        keys_in_range(m, min, max, keys),
    ensures
        payloads(entries) == Seq::new(keys.len(), |j: int| m[keys[j]]),
    decreases entries.len(),
{
    let expected = Seq::new(keys.len(), |j: int| m[keys[j]]);
    if entries.len() == 0 {
        if keys.len() > 0 {
            let k = keys[0];
            assert(m.contains_key(k) && in_range(k, min, max));
            let i = choose|i: int| 0 <= i < entries.len() && (#[trigger] entries[i]).key == k;
        }
        assert(payloads(entries) =~= expected);
    } else {
        let last = entries.last();
        let rest = entries.drop_last();
        let n = entries.len() - 1;
        assert(forall|i: int| 0 <= i < n ==> rest[i] == entries[i]);
        match last.value {
            None => {
                assert(entries[n] == last);
                assert(!m.contains_key(last.key));
                assert forall|k: Seq<u8>| m.contains_key(k) && in_range(k, min, max) implies exists|
                    i: int,
                |
                    0 <= i < rest.len() && (#[trigger] rest[i]).key == k by {
                    let i = choose|i: int|
                        0 <= i < entries.len() && (#[trigger] entries[i]).key == k;
                    assert(i != n);
                    assert(rest[i].key == k);
                }
                lemma_scan_payloads(rest, m, min, max, keys);
            },
            Some(v) => {
                assert(entries[n] == last);
                assert(m.contains_key(last.key) && in_range(last.key, min, max));
                let j = choose|j: int| 0 <= j < keys.len() && #[trigger] keys[j] == last.key;
                let top = keys.len() - 1;
                if j < top {
                    let big = keys[top];
                    assert(lex_lt(keys[j], keys[top]));
                    assert(m.contains_key(big) && in_range(big, min, max));
                    let i = choose|i: int|
                        0 <= i < entries.len() && (#[trigger] entries[i]).key == big;
                    if i < n {
                        assert(lex_lt(entries[i].key, entries[n].key));
                        lemma_lt_asymmetric(entries[i].key, entries[n].key);
                    } else {
                        lemma_lt_irreflexive(big);
                    }
                }
                assert(j == top);
                let m2 = m.remove(last.key);
                let keys2 = keys.drop_last();
                assert(forall|x: int| 0 <= x < top ==> keys2[x] == keys[x]);
                assert forall|i: int| 0 <= i < rest.len() implies (#[trigger] rest[i]).key
                    != last.key by {
                    assert(lex_lt(entries[i].key, entries[n].key));
                    lemma_lt_irreflexive(last.key);
                }
                assert forall|x: int| 0 <= x < keys2.len() implies #[trigger] keys2[x]
                    != last.key by {
                    assert(lex_lt(keys[x], keys[top]));
                    lemma_lt_irreflexive(last.key);
                }
                assert forall|k: Seq<u8>|
                    m2.contains_key(k) && in_range(k, min, max) implies exists|i: int|
                    0 <= i < rest.len() && (#[trigger] rest[i]).key == k by {
                    let i = choose|i: int|
                        0 <= i < entries.len() && (#[trigger] entries[i]).key == k;
                    assert(i != n);
                    assert(rest[i].key == k);
                }
                assert forall|k: Seq<u8>|
                    m2.contains_key(k) && in_range(k, min, max) implies exists|x: int|
                    0 <= x < keys2.len() && #[trigger] keys2[x] == k by {
                    let x = choose|x: int| 0 <= x < keys.len() && #[trigger] keys[x] == k;
                    assert(x != top);
                    assert(keys2[x] == k);
                }
                assert forall|i: int| 0 <= i < rest.len() implies in_range(
                    (#[trigger] rest[i]).key,
                    min,
                    max,
                ) && rest[i].value == (if m2.contains_key(rest[i].key) {
                    Some(m2[rest[i].key])
                } else {
                    None
                }) by {
                    assert(rest[i] == entries[i]);
                }
                assert(scan_of(rest, m2, min, max));
                lemma_scan_payloads(rest, m2, min, max, keys2);
                assert(payloads(entries) =~= expected) by {
                    assert(payloads(rest) == Seq::new(keys2.len(), |x: int| m2[keys2[x]]));
                    assert(forall|x: int| 0 <= x < top ==> m2[keys2[x]] == m[keys[x]]);
                    assert(v == m[keys[top]]);
                }
            },
        }
    }
}

/// Writes made one run after another are the writes of both runs made in
/// order.
pub proof fn lemma_apply_concat(m: Store, a: Seq<WriteView>, b: Seq<WriteView>)
    ensures
        apply_all(m, a + b) == apply_all(apply_all(m, a), b),
    decreases b.len(),
{
    if b.len() == 0 {
        assert(a + b =~= a);
    } else {
        assert((a + b).drop_last() =~= a + b.drop_last());
        lemma_apply_concat(m, a, b.drop_last());
    }
}

/// The writes that put each payload under the key at its place.
pub open spec fn puts(keys: Seq<Seq<u8>>, values: Seq<Seq<u8>>) -> Seq<WriteView> {
    Seq::new(keys.len(), |i: int| WriteView::Put { key: keys[i], value: values[i] })
}

/// No two of the keys are the same.
pub open spec fn distinct(keys: Seq<Seq<u8>>) -> bool {
    forall|i: int, j: int| 0 <= i < j < keys.len() ==> #[trigger] keys[i] != #[trigger] keys[j]
}

/// Payloads put under keys that differ from each other are all there
/// afterwards, beside what the store held under other keys.
pub proof fn lemma_puts(m: Store, keys: Seq<Seq<u8>>, values: Seq<Seq<u8>>)
    requires
        distinct(keys),
        values.len() == keys.len(),
    ensures
        forall|k: Seq<u8>|
            #[trigger] apply_all(m, puts(keys, values)).contains_key(k) <==> (m.contains_key(k)
                || keys.contains(k)),
        forall|i: int|
            0 <= i < keys.len() ==> apply_all(m, puts(keys, values))[#[trigger] keys[i]]
                == values[i],
        forall|k: Seq<u8>|
            m.contains_key(k) && !keys.contains(k) ==> #[trigger] apply_all(
                m,
                puts(keys, values),
            )[k] == m[k],
    decreases keys.len(),
{
    if keys.len() > 0 {
        let n = keys.len() - 1;
        let keys2 = keys.drop_last();
        let values2 = values.drop_last();
        assert(puts(keys, values).drop_last() =~= puts(keys2, values2));
        assert(forall|i: int| 0 <= i < n ==> keys2[i] == keys[i]);
        lemma_puts(m, keys2, values2);
        let mid = apply_all(m, puts(keys2, values2));
        let after = apply_all(m, puts(keys, values));
        assert(after == mid.insert(keys[n], values[n]));
        assert forall|k: Seq<u8>| #[trigger] after.contains_key(k) <==> (m.contains_key(k)
            || keys.contains(k)) by {
            if after.contains_key(k) && !m.contains_key(k) {
                if k == keys[n] {
                } else {
                    assert(mid.contains_key(k));
                    assert(keys2.contains(k));
                    let i = choose|i: int| 0 <= i < keys2.len() && keys2[i] == k;
                    assert(keys[i] == k);
                }
            }
            if keys.contains(k) {
                let i = choose|i: int| 0 <= i < keys.len() && keys[i] == k;
                if i < n {
                    assert(keys2[i] == k);
                    assert(keys2.contains(k));
                }
            }
        }
        assert forall|i: int| 0 <= i < keys.len() implies after[#[trigger] keys[i]]
            == values[i] by {
            if i < n {
                assert(keys[i] != keys[n]);
                assert(mid[keys2[i]] == values2[i]);
            }
        }
        assert forall|k: Seq<u8>| m.contains_key(k) && !keys.contains(k) implies #[trigger] after[k]
            == m[k] by {
            assert(keys[n] != k);
            if keys2.contains(k) {
                let i = choose|i: int| 0 <= i < keys2.len() && keys2[i] == k;
                assert(keys[i] == k);
            }
        }
    }
}

} // verus!
