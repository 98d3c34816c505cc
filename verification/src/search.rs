use vstd::prelude::*;

verus! {

/// `i` is the first place of `s` at which `p` holds.
pub open spec fn first_at<T>(s: Seq<T>, p: spec_fn(T) -> bool, i: int) -> bool {
    &&& 0 <= i < s.len()
    &&& p(s[i])
    &&& forall|j: int| 0 <= j < i ==> !p(#[trigger] s[j])
}

/// The first place of `s` at which `p` holds, if there is one.
pub open spec fn first_where<T>(s: Seq<T>, p: spec_fn(T) -> bool) -> Option<int> {
    if exists|i: int| first_at(s, p, i) {
        Some(choose|i: int| first_at(s, p, i))
    } else {
        None
    }
}

/// `i` is the last place of `s` at which `p` holds.
pub open spec fn last_at<T>(s: Seq<T>, p: spec_fn(T) -> bool, i: int) -> bool {
    &&& 0 <= i < s.len()
    &&& p(s[i])
    &&& forall|j: int| i < j < s.len() ==> !p(#[trigger] s[j])
}

/// The last place of `s` at which `p` holds, if there is one.
pub open spec fn last_where<T>(s: Seq<T>, p: spec_fn(T) -> bool) -> Option<int> {
    if exists|i: int| last_at(s, p, i) {
        Some(choose|i: int| last_at(s, p, i))
    } else {
        None
    }
}

/// The first place at which `p` holds is what `first_where` gives.
pub proof fn lemma_first_where<T>(s: Seq<T>, p: spec_fn(T) -> bool, i: int)
    requires
        first_at(s, p, i),
    ensures
        first_where(s, p) == Some(i),
{
}

/// Where `p` holds nowhere, `first_where` gives nothing.
pub proof fn lemma_first_where_none<T>(s: Seq<T>, p: spec_fn(T) -> bool)
    requires
        forall|j: int| 0 <= j < s.len() ==> !p(#[trigger] s[j]),
    ensures
        first_where(s, p) is None,
{
}

/// Where `p` holds at some place of `s`, it holds at a first one.
pub proof fn lemma_first_exists<T>(s: Seq<T>, p: spec_fn(T) -> bool, i: int)
    requires
        0 <= i < s.len(),
        p(s[i]),
    ensures
        first_where(s, p) is Some,
        first_where(s, p)->0 <= i,
    decreases i,
{
    if forall|j: int| 0 <= j < i ==> !p(#[trigger] s[j]) {
        lemma_first_where(s, p, i);
    } else {
        let j = choose|j: int| 0 <= j < i && p(#[trigger] s[j]);
        lemma_first_exists(s, p, j);
    }
}

/// The last place at which `p` holds is what `last_where` gives.
pub proof fn lemma_last_where<T>(s: Seq<T>, p: spec_fn(T) -> bool, i: int)
    requires
        last_at(s, p, i),
    ensures
        last_where(s, p) == Some(i),
{
}

/// Where `p` holds nowhere, `last_where` gives nothing.
pub proof fn lemma_last_where_none<T>(s: Seq<T>, p: spec_fn(T) -> bool)
    requires
        forall|j: int| 0 <= j < s.len() ==> !p(#[trigger] s[j]),
    ensures
        last_where(s, p) is None,
{
}

/// Where `p` holds nowhere, nothing passes the filter.
pub proof fn lemma_filter_none<T>(s: Seq<T>, p: spec_fn(T) -> bool)
    requires
        forall|i: int| 0 <= i < s.len() ==> !p(#[trigger] s[i]),
    ensures
        s.filter(p) == Seq::<T>::empty(),
    decreases s.len(),
{
    reveal(Seq::filter);
    if s.len() > 0 {
        assert forall|i: int| 0 <= i < s.drop_last().len() implies !p(#[trigger] s.drop_last()[i]) by {}
        lemma_filter_none(s.drop_last(), p);
    }
}

/// A single element passes the filter just where `p` holds of it.
pub proof fn lemma_filter_one<T>(x: T, p: spec_fn(T) -> bool)
    ensures
        seq![x].filter(p) == if p(x) { seq![x] } else { Seq::<T>::empty() },
{
    reveal(Seq::filter);
    let s = seq![x];
    assert(s.drop_last().filter(p) =~= Seq::<T>::empty());
}

} // verus!
