//! General facts about filtering sequences whose elements carry keys.

use vstd::prelude::*;

verus! {

/// Filtering one more element adds it exactly when it satisfies the predicate.
pub proof fn lemma_filter_take_step<A>(s: Seq<A>, p: spec_fn(A) -> bool, i: int)
    requires
        0 <= i < s.len(),
    ensures
        s.take(i + 1).filter(p) == (if p(s[i]) {
            s.take(i).filter(p).push(s[i])
        } else {
            s.take(i).filter(p)
        }),
{
    assert(s.take(i + 1) =~= s.take(i).push(s[i]));
    s.take(i).lemma_filter_push(s[i], p);
}

/// Every element of a filtering is an element of the sequence filtered.
pub proof fn lemma_filter_subset<A>(s: Seq<A>, p: spec_fn(A) -> bool)
    ensures
        forall|i: int| 0 <= i < s.filter(p).len() ==> s.contains(#[trigger] s.filter(p)[i]),
        forall|i: int| 0 <= i < s.filter(p).len() ==> p(#[trigger] s.filter(p)[i]),
{
    assert forall|i: int| 0 <= i < s.filter(p).len() implies s.contains(#[trigger] s.filter(p)[i])
        && p(s.filter(p)[i]) by {
        assert(s.filter(p).contains(s.filter(p)[i]));
        s.lemma_filter_contains_rev(p, s.filter(p)[i]);
        s.lemma_filter_pred(p, i);
    }
}

/// Keys that are distinct across a sequence stay distinct across a filtering of it.
pub proof fn lemma_filter_unique_keys<A>(s: Seq<A>, p: spec_fn(A) -> bool, f: spec_fn(A) -> Seq<char>)
    requires
        forall|i: int, j: int| 0 <= i < s.len() && 0 <= j < s.len() && i != j ==> f(s[i]) != f(s[j]),
    ensures
        forall|i: int, j: int|
            0 <= i < s.filter(p).len() && 0 <= j < s.filter(p).len() && i != j ==> f(s.filter(p)[i])
                != f(s.filter(p)[j]),
    decreases s.len(),
{
    reveal(Seq::filter);
    if s.len() > 0 {
        let r = s.drop_last();
        assert forall|i: int, j: int|
            0 <= i < r.len() && 0 <= j < r.len() && i != j implies f(r[i]) != f(r[j]) by {
            assert(r[i] == s[i] && r[j] == s[j]);
        }
        lemma_filter_unique_keys(r, p, f);
        let t = r.filter(p);
        lemma_filter_subset(r, p);
        assert forall|i: int| 0 <= i < t.len() implies f(t[i]) != f(s.last()) by {
            assert(r.contains(t[i]));
            let k = choose|k: int| 0 <= k < r.len() && r[k] == t[i];
            assert(s[k] == r[k]);
        }
    }
}

/// Filtering keeps a sequence whose elements all pass.
pub proof fn lemma_filter_all_pass<A>(s: Seq<A>, p: spec_fn(A) -> bool)
    requires
        forall|i: int| 0 <= i < s.len() ==> p(s[i]),
    ensures
        s.filter(p) == s,
    decreases s.len(),
{
    reveal(Seq::filter);
    if s.len() > 0 {
        lemma_filter_all_pass(s.drop_last(), p);
        assert(s.drop_last().push(s.last()) =~= s);
    }
}

/// Filtering empties a sequence whose elements all fail.
pub proof fn lemma_filter_none_pass<A>(s: Seq<A>, p: spec_fn(A) -> bool)
    requires
        forall|i: int| 0 <= i < s.len() ==> !p(s[i]),
    ensures
        s.filter(p) == Seq::<A>::empty(),
    decreases s.len(),
{
    reveal(Seq::filter);
    if s.len() > 0 {
        lemma_filter_none_pass(s.drop_last(), p);
    }
}

} // verus!
