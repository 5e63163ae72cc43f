use vstd::prelude::*;
use vstd::seq_lib::*;

verus! {

/// The page a limited keyset query returns: the first `limit` rows of the
/// selection it inspects.
pub open spec fn spec_limited<A>(s: Seq<A>, limit: int) -> Seq<A> {
    if s.len() <= limit {
        s
    } else {
        s.take(limit)
    }
}

/// Filtering a single row keeps it exactly when the predicate accepts it.
pub proof fn lemma_filter_single<A>(x: A, pred: spec_fn(A) -> bool)
    ensures
        seq![x].filter(pred) == if pred(x) {
            seq![x]
        } else {
            Seq::<A>::empty()
        },
{
    reveal_with_fuel(Seq::filter, 2);
    assert(seq![x].drop_last() =~= Seq::<A>::empty());
    assert(Seq::<A>::empty().filter(pred) =~= Seq::<A>::empty());
    if pred(x) {
        assert(seq![x].filter(pred) =~= seq![x]);
    } else {
        assert(seq![x].filter(pred) =~= Seq::<A>::empty());
    }
}

/// Filtering a one-longer prefix extends the filtered rows by the new row
/// exactly when the predicate accepts it.
pub proof fn lemma_filter_step<A>(s: Seq<A>, i: int, pred: spec_fn(A) -> bool)
    requires
        0 <= i < s.len(),
    ensures
        s.take(i + 1).filter(pred) == s.take(i).filter(pred) + (if pred(s[i]) {
            seq![s[i]]
        } else {
            Seq::<A>::empty()
        }),
{
    assert(s.take(i + 1) =~= s.take(i) + seq![s[i]]);
    Seq::filter_distributes_over_add(s.take(i), seq![s[i]], pred);
    lemma_filter_single(s[i], pred);
}

/// Once a scan of a prefix has produced `limit` rows, the remaining rows
/// cannot change the returned page.
pub proof fn lemma_filter_cut<A>(s: Seq<A>, i: int, limit: int, pred: spec_fn(A) -> bool)
    requires
        0 <= i <= s.len(),
        s.take(i).filter(pred).len() == limit,
    ensures
        spec_limited(s.filter(pred), limit) == s.take(i).filter(pred),
{
    assert(s =~= s.take(i) + s.skip(i));
    Seq::filter_distributes_over_add(s.take(i), s.skip(i), pred);
    let a = s.take(i).filter(pred);
    let b = s.skip(i).filter(pred);
    assert(s.filter(pred) == a + b);
    if b.len() == 0 {
        assert(a + b =~= a);
    } else {
        assert((a + b).take(limit) =~= a);
    }
}

/// Filtering the empty sequence yields the empty sequence.
pub proof fn lemma_filter_empty<A>(pred: spec_fn(A) -> bool)
    ensures
        Seq::<A>::empty().filter(pred) == Seq::<A>::empty(),
{
    reveal_with_fuel(Seq::filter, 1);
}

/// Filtering by a stronger predicate ignores an interposed filter by a
/// weaker one.
pub proof fn lemma_filter_subsume<A>(s: Seq<A>, p: spec_fn(A) -> bool, q: spec_fn(A) -> bool)
    requires
        forall|x: A| #[trigger] p(x) ==> q(x),
    ensures
        s.filter(q).filter(p) == s.filter(p),
    decreases s.len(),
{
    reveal_with_fuel(Seq::filter, 1);
    if s.len() == 0 {
    } else {
        let init = s.drop_last();
        let last = s.last();
        lemma_filter_subsume(init, p, q);
        if q(last) {
            assert(s.filter(q) == init.filter(q).push(last));
            assert(init.filter(q).push(last).drop_last() =~= init.filter(q));
            assert(init.filter(q).push(last).last() == last);
        } else {
            assert(!p(last));
            assert(s.filter(q) == init.filter(q));
        }
    }
}

/// A scan that reached the end of the rows has seen the whole selection.
pub proof fn lemma_filter_whole<A>(s: Seq<A>, pred: spec_fn(A) -> bool)
    ensures
        s.take(s.len() as int).filter(pred) == s.filter(pred),
{
    assert(s.take(s.len() as int) =~= s);
}

} // verus!
