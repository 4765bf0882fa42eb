//! Generic sequence facts the curation rules are stated with.

use vstd::prelude::*;

verus! {

/// Position of the first element satisfying `p`.
pub open spec fn first_match<A>(s: Seq<A>, p: spec_fn(A) -> bool) -> Option<int>
    decreases s.len(),
{
    if s.len() == 0 {
        None
    } else if p(s[0]) {
        Some(0)
    } else {
        match first_match(s.drop_first(), p) {
            Some(i) => Some(i + 1),
            None => None,
        }
    }
}

pub proof fn lemma_first_match_found<A>(s: Seq<A>, p: spec_fn(A) -> bool, i: int)
    requires
        0 <= i < s.len(),
        p(s[i]),
        forall|k: int| 0 <= k < i ==> !p(#[trigger] s[k]),
    ensures
        first_match(s, p) == Some(i),
    decreases i,
{
    if i > 0 {
        let t = s.drop_first();
        assert forall|k: int| 0 <= k < i - 1 implies !p(#[trigger] t[k]) by {
            assert(t[k] == s[k + 1]);
        }
        assert(!p(s[0]));
        lemma_first_match_found(t, p, i - 1);
    }
}

pub proof fn lemma_first_match_none<A>(s: Seq<A>, p: spec_fn(A) -> bool)
    requires
        forall|k: int| 0 <= k < s.len() ==> !p(#[trigger] s[k]),
    ensures
        first_match(s, p) == None::<int>,
    decreases s.len(),
{
    if s.len() > 0 {
        let t = s.drop_first();
        assert forall|k: int| 0 <= k < t.len() implies !p(#[trigger] t[k]) by {
            assert(t[k] == s[k + 1]);
        }
        assert(!p(s[0]));
        lemma_first_match_none(t, p);
    }
}

pub proof fn lemma_first_match_props<A>(s: Seq<A>, p: spec_fn(A) -> bool)
    ensures
        first_match(s, p) matches Some(i) ==> 0 <= i < s.len() && p(s[i]) && forall|k: int|
            0 <= k < i ==> !p(#[trigger] s[k]),
        first_match(s, p) is None ==> forall|k: int| 0 <= k < s.len() ==> !p(#[trigger] s[k]),
    decreases s.len(),
{
    if s.len() > 0 {
        let t = s.drop_first();
        lemma_first_match_props(t, p);
        if !p(s[0]) {
            assert forall|k: int| 1 <= k < s.len() implies s[k] == t[k - 1] by {}
        }
    }
}

/// The sequence with its first `n` elements removed, keeping at most `cap`
/// trailing elements (oldest dropped first).
pub open spec fn keep_last<A>(s: Seq<A>, cap: nat) -> Seq<A> {
    if s.len() > cap {
        s.skip(s.len() - cap)
    } else {
        s
    }
}

/// At most the first `cap` elements.
pub open spec fn keep_first<A>(s: Seq<A>, cap: nat) -> Seq<A> {
    if s.len() > cap {
        s.take(cap as int)
    } else {
        s
    }
}

/// Filtering a one-longer prefix either keeps the new element or not.
pub proof fn lemma_filter_take_step<A>(s: Seq<A>, p: spec_fn(A) -> bool, i: int)
    requires
        0 <= i < s.len(),
    ensures
        s.take(i + 1).filter(p) == if p(s[i]) {
            s.take(i).filter(p).push(s[i])
        } else {
            s.take(i).filter(p)
        },
{
    reveal_with_fuel(Seq::filter, 1);
    assert(s.take(i + 1).drop_last() =~= s.take(i));
    assert(s.take(i + 1).last() == s[i]);
}

/// Filtering that keeps everything is the identity.
pub proof fn lemma_filter_all<A>(s: Seq<A>, p: spec_fn(A) -> bool)
    requires
        forall|k: int| 0 <= k < s.len() ==> p(#[trigger] s[k]),
    ensures
        s.filter(p) == s,
    decreases s.len(),
{
    reveal_with_fuel(Seq::filter, 1);
    if s.len() > 0 {
        let t = s.drop_last();
        assert forall|k: int| 0 <= k < t.len() implies p(#[trigger] t[k]) by {
            assert(t[k] == s[k]);
        }
        lemma_filter_all(t, p);
        assert(p(s.last()));
        assert(t.push(s.last()) =~= s);
    }
}

/// Removing the only element a filter drops.
pub proof fn lemma_filter_single_drop<A>(s: Seq<A>, p: spec_fn(A) -> bool, i: int)
    requires
        0 <= i < s.len(),
        !p(s[i]),
        forall|k: int| 0 <= k < s.len() && k != i ==> p(#[trigger] s[k]),
    ensures
        s.filter(p) == s.remove(i),
{
    let a = s.take(i);
    let b = s.skip(i + 1);
    assert(s =~= a + seq![s[i]] + b);
    Seq::filter_distributes_over_add(a + seq![s[i]], b, p);
    Seq::filter_distributes_over_add(a, seq![s[i]], p);
    assert forall|k: int| 0 <= k < a.len() implies p(#[trigger] a[k]) by {
        assert(a[k] == s[k]);
    }
    assert forall|k: int| 0 <= k < b.len() implies p(#[trigger] b[k]) by {
        assert(b[k] == s[k + i + 1]);
    }
    lemma_filter_all(a, p);
    lemma_filter_all(b, p);
    reveal_with_fuel(Seq::filter, 2);
    assert(seq![s[i]].filter(p) =~= Seq::<A>::empty()) by {
        assert(seq![s[i]].drop_last() =~= Seq::<A>::empty());
    }
    assert(s.remove(i) =~= a + b);
}

/// Filtering that keeps nothing gives the empty sequence.
pub proof fn lemma_filter_none<A>(s: Seq<A>, p: spec_fn(A) -> bool)
    requires
        forall|k: int| 0 <= k < s.len() ==> !p(#[trigger] s[k]),
    ensures
        s.filter(p) == Seq::<A>::empty(),
{
    if s.filter(p).len() > 0 {
        s.lemma_filter_pred(p, 0);
        s.lemma_filter_contains_rev(p, s.filter(p)[0]);
        assert(s.filter(p).contains(s.filter(p)[0]));
    }
    assert(s.filter(p) =~= Seq::<A>::empty());
}

/// Two filters in a row are one filter by both predicates.
pub proof fn lemma_filter_filter<A>(s: Seq<A>, p: spec_fn(A) -> bool, q: spec_fn(A) -> bool)
    ensures
        s.filter(p).filter(q) == s.filter(|x: A| p(x) && q(x)),
    decreases s.len(),
{
    reveal_with_fuel(Seq::filter, 1);
    if s.len() > 0 {
        lemma_filter_filter(s.drop_last(), p, q);
        let sp = s.drop_last().filter(p);
        if p(s.last()) {
            assert(s.filter(p) == sp.push(s.last()));
            assert(sp.push(s.last()).drop_last() =~= sp);
        }
    }
}

} // verus!
