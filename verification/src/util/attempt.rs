//! Doing something to each item of a sequence in order, and stopping at
//! the first item for which it cannot be done.
use vstd::prelude::*;

verus! {

/// The results of `f` on the items of `s`, each with its place; the error
/// of the first item on which `f` fails, if there is one.
pub open spec fn attempt_all<A, B, E>(s: Seq<A>, f: spec_fn(int, A) -> Result<B, E>) -> Result<
    Seq<B>,
    E,
>
    decreases s.len(),
{
    if s.len() == 0 {
        Ok(Seq::empty())
    } else {
        match attempt_all(s.drop_last(), f) {
            Err(e) => Err(e),
            Ok(before) => match f(s.len() - 1, s.last()) {
                Err(e) => Err(e),
                Ok(b) => Ok(before.push(b)),
            },
        }
    }
}

/// Where `f` fails among the first `n` items, the whole fails in the same
/// way.
pub proof fn lemma_attempt_stop<A, B, E>(s: Seq<A>, f: spec_fn(int, A) -> Result<B, E>, n: int)
    requires
        0 <= n <= s.len(),
        attempt_all(s.take(n), f) is Err,
    ensures
        attempt_all(s, f) == attempt_all(s.take(n), f),
    decreases s.len(),
{
    if n < s.len() {
        assert(s.drop_last().take(n) =~= s.take(n));
        lemma_attempt_stop(s.drop_last(), f, n);
    } else {
        assert(s.take(n) =~= s);
    }
}

/// What one more item adds to the results of the first `n`.
pub proof fn lemma_attempt_step<A, B, E>(s: Seq<A>, f: spec_fn(int, A) -> Result<B, E>, n: int)
    requires
        0 <= n < s.len(),
    ensures
        attempt_all(s.take(n + 1), f) == match attempt_all(s.take(n), f) {
            Err(e) => Err(e),
            Ok(before) => match f(n, s[n]) {
                Err(e) => Err(e),
                Ok(b) => Ok(before.push(b)),
            },
        },
{
    assert(s.take(n + 1).drop_last() =~= s.take(n));
}

/// Of no items there are no results.
pub proof fn lemma_attempt_none<A, B, E>(s: Seq<A>, f: spec_fn(int, A) -> Result<B, E>)
    ensures
        attempt_all(s.take(0), f) == Ok::<Seq<B>, E>(Seq::empty()),
{
    assert(s.take(0) =~= Seq::empty());
}


} // verus!

verus! {

/// The state after each item of `s` in order has changed it by `f`; the
/// error of the first item on which `f` fails, if there is one.
pub open spec fn attempt_fold<A, S, E>(s: Seq<A>, init: S, f: spec_fn(S, A) -> Result<S, E>)
    -> Result<S, E>
    decreases s.len(),
{
    if s.len() == 0 {
        Ok(init)
    } else {
        match attempt_fold(s.drop_last(), init, f) {
            Err(e) => Err(e),
            Ok(state) => f(state, s.last()),
        }
    }
}

/// Where `f` fails among the first `n` items, the whole fails in the same
/// way.
pub proof fn lemma_fold_stop<A, S, E>(
    s: Seq<A>,
    init: S,
    f: spec_fn(S, A) -> Result<S, E>,
    n: int,
)
    requires
        0 <= n <= s.len(),
        attempt_fold(s.take(n), init, f) is Err,
    ensures
        attempt_fold(s, init, f) == attempt_fold(s.take(n), init, f),
    decreases s.len(),
{
    if n < s.len() {
        assert(s.drop_last().take(n) =~= s.take(n));
        lemma_fold_stop(s.drop_last(), init, f, n);
    } else {
        assert(s.take(n) =~= s);
    }
}

/// What one more item does to the state after the first `n`.
pub proof fn lemma_fold_step<A, S, E>(
    s: Seq<A>,
    init: S,
    f: spec_fn(S, A) -> Result<S, E>,
    n: int,
)
    requires
        0 <= n < s.len(),
    ensures
        attempt_fold(s.take(n + 1), init, f) == match attempt_fold(s.take(n), init, f) {
            Err(e) => Err(e),
            Ok(state) => f(state, s[n]),
        },
{
    assert(s.take(n + 1).drop_last() =~= s.take(n));
}

/// No item leaves the state as it was.
pub proof fn lemma_fold_none<A, S, E>(s: Seq<A>, init: S, f: spec_fn(S, A) -> Result<S, E>)
    ensures
        attempt_fold(s.take(0), init, f) == Ok::<S, E>(init),
{
    assert(s.take(0) =~= Seq::empty());
}

} // verus!
