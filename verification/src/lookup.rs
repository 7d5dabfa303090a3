//! Lookups by key in which the last entry with the key wins, as in a map that
//! is collected from a list of key-value pairs.
use vstd::prelude::*;

verus! {

/// The index of the last element of `s` that satisfies `p`.
pub open spec fn last_index_where<A>(s: Seq<A>, p: spec_fn(A) -> bool) -> Option<int>
    decreases s.len(),
{
    if s.len() == 0 {
        None
    } else if p(s.last()) {
        Some(s.len() - 1)
    } else {
        last_index_where(s.drop_last(), p)
    }
}

/// What `last_index_where` gives: the index of an element that satisfies the
/// predicate and after which none does, or nothing where no element does.
pub proof fn lemma_last_index_where<A>(s: Seq<A>, p: spec_fn(A) -> bool)
    ensures
        match last_index_where(s, p) {
            Some(i) => 0 <= i < s.len() && p(s[i]) && forall|j: int| i < j < s.len() ==> !p(#[trigger] s[j]),
            None => forall|j: int| 0 <= j < s.len() ==> !p(#[trigger] s[j]),
        },
    decreases s.len(),
{
    if s.len() > 0 && !p(s.last()) {
        lemma_last_index_where(s.drop_last(), p);
        assert forall|j: int| 0 <= j < s.len() - 1 implies s.drop_last()[j] == s[j] by {}
    }
}

/// Conversely, an index that satisfies the predicate and after which no
/// element does is the one that `last_index_where` gives.
pub proof fn lemma_last_index_where_is<A>(s: Seq<A>, p: spec_fn(A) -> bool, i: int)
    requires
        0 <= i < s.len(),
        p(s[i]),
        forall|j: int| i < j < s.len() ==> !p(#[trigger] s[j]),
    ensures
        last_index_where(s, p) == Some(i),
{
    lemma_last_index_where(s, p);
}

/// Where no element satisfies the predicate, `last_index_where` gives nothing.
pub proof fn lemma_last_index_where_none<A>(s: Seq<A>, p: spec_fn(A) -> bool)
    requires
        forall|j: int| 0 <= j < s.len() ==> !p(#[trigger] s[j]),
    ensures
        last_index_where(s, p) is None,
{
    lemma_last_index_where(s, p);
}

} // verus!
