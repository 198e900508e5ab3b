//! First-match positions in sequences, the model of identity lookup.
use vstd::prelude::*;

verus! {

/// `i` is the first position of `s` whose element satisfies `p`.
pub open spec fn is_first_where<T>(s: Seq<T>, p: spec_fn(T) -> bool, i: int) -> bool {
    &&& 0 <= i < s.len()
    &&& p(s[i])
    &&& forall|j: int| 0 <= j < i ==> !p(#[trigger] s[j])
}

/// The first position of `s` whose element satisfies `p`, or `-1`.
pub open spec fn first_index_where<T>(s: Seq<T>, p: spec_fn(T) -> bool) -> int {
    if exists|i: int| is_first_where(s, p, i) {
        choose|i: int| is_first_where(s, p, i)
    } else {
        -1
    }
}

/// A first position is unique.
pub proof fn lemma_first_unique<T>(s: Seq<T>, p: spec_fn(T) -> bool, i: int, k: int)
    requires
        is_first_where(s, p, i),
        is_first_where(s, p, k),
    ensures
        i == k,
{
    if i < k {
        assert(!p(s[i]));
    } else if k < i {
        assert(!p(s[k]));
    }
}

/// The first position, where one is known.
pub proof fn lemma_first_index_is<T>(s: Seq<T>, p: spec_fn(T) -> bool, i: int)
    requires
        is_first_where(s, p, i),
    ensures
        first_index_where(s, p) == i,
{
    let c = choose|c: int| is_first_where(s, p, c);
    lemma_first_unique(s, p, i, c);
}

/// Properties of the first position, whatever it is.
pub proof fn lemma_first_index_facts<T>(s: Seq<T>, p: spec_fn(T) -> bool)
    ensures
        first_index_where(s, p) == -1 || is_first_where(s, p, first_index_where(s, p)),
        first_index_where(s, p) == -1 <==> forall|j: int| 0 <= j < s.len() ==> !p(#[trigger] s[j]),
{
    if exists|i: int| is_first_where(s, p, i) {
        let c = choose|i: int| is_first_where(s, p, i);
        assert(is_first_where(s, p, c));
    } else {
        assert forall|j: int| 0 <= j < s.len() implies !p(#[trigger] s[j]) by {
            if p(s[j]) {
                // the smallest satisfying position would be first
                lemma_exists_first(s, p, j);
            }
        }
    }
}

/// Where some position satisfies `p`, a first one exists.
pub proof fn lemma_exists_first<T>(s: Seq<T>, p: spec_fn(T) -> bool, j: int)
    requires
        0 <= j < s.len(),
        p(s[j]),
    ensures
        exists|i: int| is_first_where(s, p, i),
    decreases j,
{
    if forall|k: int| 0 <= k < j ==> !p(#[trigger] s[k]) {
        assert(is_first_where(s, p, j));
    } else {
        let k = choose|k: int| 0 <= k < j && p(#[trigger] s[k]);
        lemma_exists_first(s, p, k);
    }
}

} // verus!
