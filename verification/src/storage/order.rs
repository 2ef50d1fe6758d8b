//! The order of keys: byte strings compared position by position, a proper
//! prefix coming before its extensions.
use vstd::prelude::*;

verus! {

/// `a` and `b` hold the same bytes at every position below `n`.
pub open spec fn agree(a: Seq<u8>, b: Seq<u8>, n: int) -> bool {
    forall|j: int| 0 <= j < n ==> a[j] == b[j]
}

/// `i` is the position that puts `a` before `b`: both agree below it, and
/// there `a` ends while `b` goes on, or holds the smaller byte.
pub open spec fn before_at(a: Seq<u8>, b: Seq<u8>, i: int) -> bool {
    &&& 0 <= i <= a.len()
    &&& i < b.len()
    &&& agree(a, b, i)
    &&& (i == a.len() || a[i] < b[i])
}

/// Strict lexicographic order.
pub open spec fn lex_lt(a: Seq<u8>, b: Seq<u8>) -> bool {
    exists|i: int| before_at(a, b, i)
}

pub open spec fn lex_le(a: Seq<u8>, b: Seq<u8>) -> bool {
    a == b || lex_lt(a, b)
}

/// `k` lies in the closed range from `min` to `max`.
pub open spec fn in_range(k: Seq<u8>, min: Seq<u8>, max: Seq<u8>) -> bool {
    lex_le(min, k) && lex_le(k, max)
}

/// `a` and `b` agree below `i` and hold different bytes there.
pub open spec fn part_at(a: Seq<u8>, b: Seq<u8>, i: int) -> bool {
    &&& 0 <= i < a.len()
    &&& i < b.len()
    &&& agree(a, b, i)
    &&& a[i] != b[i]
}

/// Neither of `a` and `b` is a prefix of the other.
pub open spec fn parted(a: Seq<u8>, b: Seq<u8>) -> bool {
    exists|i: int| part_at(a, b, i)
}

pub proof fn lemma_lt_irreflexive(a: Seq<u8>)
    ensures
        !lex_lt(a, a),
{
}

pub proof fn lemma_lt_asymmetric(a: Seq<u8>, b: Seq<u8>)
    requires
        lex_lt(a, b),
    ensures
        !lex_le(b, a),
{
    let i = choose|i: int| before_at(a, b, i);
    if lex_lt(b, a) {
        let j = choose|j: int| before_at(b, a, j);
        if i < j {
            assert(b[i] == a[i]);
        } else if j < i {
            assert(a[j] == b[j]);
        }
    }
    if a == b {
        lemma_lt_irreflexive(a);
    }
}



/// The first position at which two different strings of one length differ.
pub proof fn lemma_first_difference(a: Seq<u8>, b: Seq<u8>, n: int) -> (i: int)
    requires
        0 <= n <= a.len(),
        n <= b.len(),
        exists|j: int| 0 <= j < n && a[j] != b[j],
    ensures
        part_at(a, b, i),
        i < n,
    decreases n,
{
    if exists|j: int| 0 <= j < n - 1 && a[j] != b[j] {
        lemma_first_difference(a, b, n - 1)
    } else {
        n - 1
    }
}

/// Any two strings are equal, or one comes before the other.
pub proof fn lemma_total(a: Seq<u8>, b: Seq<u8>)
    ensures
        a == b || lex_lt(a, b) || lex_lt(b, a),
{
    let n = if a.len() <= b.len() { a.len() as int } else { b.len() as int };
    if exists|j: int| 0 <= j < n && a[j] != b[j] {
        let i = lemma_first_difference(a, b, n);
        assert(forall|j: int| 0 <= j < i ==> b[j] == a[j]);
        if a[i] < b[i] {
            assert(before_at(a, b, i));
        } else {
            assert(before_at(b, a, i));
        }
    } else if a.len() < b.len() {
        assert(before_at(a, b, n));
    } else if b.len() < a.len() {
        assert(forall|j: int| 0 <= j < n ==> b[j] == a[j]);
        assert(before_at(b, a, n));
    } else {
        assert(a =~= b);
    }
}

/// Two different strings of one length part somewhere.
pub proof fn lemma_same_length_parted(a: Seq<u8>, b: Seq<u8>)
    requires
        a.len() == b.len(),
        a != b,
    ensures
        parted(a, b),
{
    if !exists|j: int| 0 <= j < a.len() && a[j] != b[j] {
        assert(a =~= b);
    }
    let i = lemma_first_difference(a, b, a.len() as int);
}

/// Strings that part keep doing so however they are continued.
pub proof fn lemma_parted_extend(a: Seq<u8>, b: Seq<u8>, x: Seq<u8>, y: Seq<u8>)
    requires
        parted(a, b),
    ensures
        parted(a + x, b + y),
{
    let i = choose|i: int| part_at(a, b, i);
    assert forall|j: int| 0 <= j < i implies (a + x)[j] == (b + y)[j] by {
        assert(a[j] == b[j]);
    }
    assert(part_at(a + x, b + y, i));
}

/// A common prefix does not bring parted strings together.
pub proof fn lemma_parted_shift(p: Seq<u8>, a: Seq<u8>, b: Seq<u8>)
    requires
        parted(a, b),
    ensures
        parted(p + a, p + b),
{
    let i = choose|i: int| part_at(a, b, i);
    assert forall|j: int| 0 <= j < p.len() + i implies (p + a)[j] == (p + b)[j] by {
        if j >= p.len() {
            assert(a[j - p.len()] == b[j - p.len()]);
        }
    }
    assert(part_at(p + a, p + b, p.len() + i));
}


/// A string that parts from the common prefix of a range's two ends lies
/// outside the range.
pub proof fn lemma_parted_outside(k: Seq<u8>, p: Seq<u8>, lo: Seq<u8>, hi: Seq<u8>)
    requires
        parted(k, p),
    ensures
        !in_range(k, p + lo, p + hi),
{
    let i = choose|i: int| part_at(k, p, i);
    if k[i] < p[i] {
        assert forall|j: int| 0 <= j < i implies k[j] == (p + lo)[j] by {
            assert(k[j] == p[j]);
        }
        assert(before_at(k, p + lo, i));
        lemma_lt_asymmetric(k, p + lo);
    } else {
        assert forall|j: int| 0 <= j < i implies (p + hi)[j] == k[j] by {
            assert(k[j] == p[j]);
        }
        assert(before_at(p + hi, k, i));
        lemma_lt_asymmetric(p + hi, k);
    }
}

/// Every continuation of `p + [0]` lies between `p + [0]` and `p + [1]`.
pub proof fn lemma_inside(p: Seq<u8>, rest: Seq<u8>)
    ensures
        in_range(p + seq![0u8] + rest, p + seq![0u8], p + seq![1u8]),
{
    let k = p + seq![0u8] + rest;
    let lo = p + seq![0u8];
    let hi = p + seq![1u8];
    if rest.len() == 0 {
        assert(k =~= lo);
    } else {
        assert(before_at(lo, k, lo.len() as int));
    }
    assert(before_at(k, hi, p.len() as int));
}

/// A common beginning does not change the order of what follows it.
pub proof fn lemma_lt_shift(p: Seq<u8>, a: Seq<u8>, b: Seq<u8>)
    requires
        lex_lt(a, b),
    ensures
        lex_lt(p + a, p + b),
{
    let i = choose|i: int| before_at(a, b, i);
    assert forall|j: int| 0 <= j < p.len() + i implies (p + a)[j] == (p + b)[j] by {
        if j >= p.len() {
            assert(a[j - p.len()] == b[j - p.len()]);
        }
    }
    assert(before_at(p + a, p + b, p.len() + i));
}

/// What follows a common beginning is ordered as the whole is.
pub proof fn lemma_lt_unshift(p: Seq<u8>, a: Seq<u8>, b: Seq<u8>)
    requires
        lex_lt(p + a, p + b),
    ensures
        lex_lt(a, b),
{
    lemma_total(a, b);
    if a == b {
        lemma_lt_irreflexive(p + a);
    } else if lex_lt(b, a) {
        lemma_lt_shift(p, b, a);
        lemma_lt_asymmetric(p + b, p + a);
    }
}

/// Of two strings of one length, the one that comes first still does
/// however both are continued.
pub proof fn lemma_lt_extend(a: Seq<u8>, b: Seq<u8>, c: Seq<u8>, d: Seq<u8>)
    requires
        a.len() == b.len(),
        lex_lt(a, b),
    ensures
        lex_lt(a + c, b + d),
{
    let i = choose|i: int| before_at(a, b, i);
    assert forall|j: int| 0 <= j < i implies (a + c)[j] == (b + d)[j] by {
        assert(a[j] == b[j]);
    }
    assert(before_at(a + c, b + d, i));
}

/// Whether `a` comes strictly before `b`.
pub fn bytes_lt(a: &[u8], b: &[u8]) -> (r: bool)
    ensures
        r == lex_lt(a@, b@),
{
    let mut i: usize = 0;
    while i < a.len() && i < b.len()
        invariant
            i <= a@.len(),
            i <= b@.len(),
            agree(a@, b@, i as int),
        decreases a@.len() - i,
    {
        if a[i] != b[i] {
            let r = a[i] < b[i];
            proof {
                if r {
                    assert(before_at(a@, b@, i as int));
                } else {
                    assert(forall|j: int| 0 <= j < i ==> b@[j] == a@[j]);
                    assert(before_at(b@, a@, i as int));
                    lemma_lt_asymmetric(b@, a@);
                }
            }
            return r;
        }
        i += 1;
    }
    proof {
        if i < b@.len() {
            assert(before_at(a@, b@, i as int));
        } else {
            if a@.len() == b@.len() {
                assert(a@ =~= b@);
                lemma_lt_irreflexive(a@);
            } else {
                assert(forall|j: int| 0 <= j < i ==> b@[j] == a@[j]);
                assert(before_at(b@, a@, i as int));
                lemma_lt_asymmetric(b@, a@);
            }
        }
    }
    i < b.len()
}

} // verus!
