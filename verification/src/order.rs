//! The canonical order of identity-addressed collections: by allocation
//! namespace, then by counter. A namespace compares by its sixteen
//! big-endian bytes, which order as the 128-bit values they spell.
use vstd::prelude::*;

verus! {

/// Key `a` comes before key `b`.
pub open spec fn key_before(a: (u128, u64), b: (u128, u64)) -> bool {
    a.0 < b.0 || (a.0 == b.0 && a.1 < b.1)
}

/// Exec form of [`key_before`].
pub fn key_is_before(a: (u128, u64), b: (u128, u64)) -> (r: bool)
    ensures
        r == key_before(a, b),
{
    a.0 < b.0 || (a.0 == b.0 && a.1 < b.1)
}

/// The number of leading positions of `order` whose keys do not come after
/// `k`: where `k` is inserted into `order`, after the keys equal to it.
pub open spec fn insertion_point(order: Seq<int>, keys: Seq<(u128, u64)>, k: (u128, u64)) -> int
    decreases order.len(),
{
    if order.len() == 0 {
        0
    } else if key_before(k, keys[order[0]]) {
        0
    } else {
        1 + insertion_point(order.drop_first(), keys, k)
    }
}

/// The positions `0..n` of `keys`, in ascending key order, equal keys in
/// their stored order.
pub open spec fn sorted_prefix(keys: Seq<(u128, u64)>, n: nat) -> Seq<int>
    decreases n,
{
    if n == 0 {
        Seq::empty()
    } else {
        let prior = sorted_prefix(keys, (n - 1) as nat);
        prior.insert(insertion_point(prior, keys, keys[n - 1]), n - 1)
    }
}

/// The positions of `keys` in ascending key order.
pub open spec fn sorted_order(keys: Seq<(u128, u64)>) -> Seq<int> {
    sorted_prefix(keys, keys.len())
}

proof fn lemma_insertion_point_bounds(order: Seq<int>, keys: Seq<(u128, u64)>, k: (u128, u64))
    ensures
        0 <= insertion_point(order, keys, k) <= order.len(),
    decreases order.len(),
{
    if order.len() > 0 && !key_before(k, keys[order[0]]) {
        lemma_insertion_point_bounds(order.drop_first(), keys, k);
    }
}

/// The sorted prefix of `n` positions holds `n` positions, each below `n`.
pub proof fn lemma_sorted_prefix_range(keys: Seq<(u128, u64)>, n: nat)
    ensures
        sorted_prefix(keys, n).len() == n,
        forall|j: int| 0 <= j < n ==> 0 <= #[trigger] sorted_prefix(keys, n)[j] < n,
    decreases n,
{
    if n > 0 {
        let prior = sorted_prefix(keys, (n - 1) as nat);
        lemma_sorted_prefix_range(keys, (n - 1) as nat);
        lemma_insertion_point_bounds(prior, keys, keys[n - 1]);
        let p = insertion_point(prior, keys, keys[n - 1]);
        assert forall|j: int| 0 <= j < n implies 0 <= #[trigger] sorted_prefix(keys, n)[j] < n by {
            if j < p {
                assert(sorted_prefix(keys, n)[j] == prior[j]);
            } else if j > p {
                assert(sorted_prefix(keys, n)[j] == prior[j - 1]);
            }
        }
    }
}

fn insertion_index(order: &Vec<usize>, keys: &Vec<(u128, u64)>, k: (u128, u64)) -> (r: usize)
    requires
        forall|j: int| 0 <= j < order.len() ==> #[trigger] order[j] < keys.len(),
    ensures
        r == insertion_point(order@.map_values(|i: usize| i as int), keys@, k),
{
    let ghost whole = order@.map_values(|i: usize| i as int);
    let mut p: usize = 0;
    assert(whole.skip(0) =~= whole);
    while p < order.len()
        invariant
            p <= order.len(),
            whole == order@.map_values(|i: usize| i as int),
            forall|j: int| 0 <= j < order.len() ==> #[trigger] order[j] < keys.len(),
            insertion_point(whole, keys@, k) == p + insertion_point(whole.skip(p as int), keys@, k),
        decreases order.len() - p,
    {
        let position = order[p];
        assert(whole.skip(p as int)[0] == position as int);
        if key_is_before(k, keys[position]) {
            return p;
        }
        assert(whole.skip(p as int).drop_first() =~= whole.skip(p + 1));
        p = p + 1;
    }
    p
}

/// The positions of `keys` in ascending key order: [`sorted_order`].
pub fn sorted_positions(keys: &Vec<(u128, u64)>) -> (order: Vec<usize>)
    ensures
        order@.map_values(|i: usize| i as int) == sorted_order(keys@),
        order.len() == keys.len(),
        forall|j: int| 0 <= j < order.len() ==> #[trigger] order[j] < keys.len(),
{
    let mut order: Vec<usize> = Vec::new();
    let mut n: usize = 0;
    while n < keys.len()
        invariant
            n <= keys.len(),
            order@.map_values(|i: usize| i as int) == sorted_prefix(keys@, n as nat),
            order.len() == n,
            forall|j: int| 0 <= j < order.len() ==> #[trigger] order[j] < n,
        decreases keys.len() - n,
    {
        let ghost prior = order@;
        let p = insertion_index(&order, keys, keys[n]);
        proof {
            lemma_insertion_point_bounds(prior.map_values(|i: usize| i as int), keys@, keys@[n as int]);
        }
        order.insert(p, n);
        proof {
            assert(order@.map_values(|i: usize| i as int) =~= prior.map_values(|i: usize| i as int).insert(p as int, n as int));
            assert forall|j: int| 0 <= j < order.len() implies #[trigger] order[j] < n + 1 by {
                if j < p {
                    assert(order[j] == prior[j]);
                } else if j > p {
                    assert(order[j] == prior[j - 1]);
                }
            }
        }
        n = n + 1;
    }
    order
}


/// Keys that are pairwise distinct.
pub open spec fn distinct_keys(keys: Seq<(u128, u64)>) -> bool {
    forall|i: int, j: int| 0 <= i < j < keys.len() ==> #[trigger] keys[i] != #[trigger] keys[j]
}

/// Keys in strictly ascending order.
pub open spec fn keys_ascending(keys: Seq<(u128, u64)>) -> bool {
    forall|i: int, j: int| 0 <= i < j < keys.len() ==> key_before(#[trigger] keys[i], #[trigger] keys[j])
}

/// The keys at the positions of `order`.
pub open spec fn keys_at(keys: Seq<(u128, u64)>, order: Seq<int>) -> Seq<(u128, u64)> {
    Seq::new(order.len(), |k: int| keys[order[k]])
}

proof fn lemma_insertion_point_facts(order: Seq<int>, keys: Seq<(u128, u64)>, k: (u128, u64))
    ensures
        forall|j: int| 0 <= j < insertion_point(order, keys, k) ==> !key_before(k, #[trigger] keys[order[j]]),
        insertion_point(order, keys, k) < order.len() ==> key_before(k, keys[order[insertion_point(order, keys, k)]]),
    decreases order.len(),
{
    lemma_insertion_point_bounds(order, keys, k);
    if order.len() > 0 && !key_before(k, keys[order[0]]) {
        let rest = order.drop_first();
        lemma_insertion_point_facts(rest, keys, k);
        assert forall|j: int| 0 <= j < insertion_point(order, keys, k) implies !key_before(k, #[trigger] keys[order[j]]) by {
            if j > 0 {
                assert(order[j] == rest[j - 1]);
            }
        }
        let q = insertion_point(rest, keys, k);
        lemma_insertion_point_bounds(rest, keys, k);
        if q < rest.len() {
            assert(order[q + 1] == rest[q]);
        }
    }
}

proof fn lemma_insertion_point_last(order: Seq<int>, keys: Seq<(u128, u64)>, k: (u128, u64))
    requires
        forall|j: int| 0 <= j < order.len() ==> !key_before(k, #[trigger] keys[order[j]]),
    ensures
        insertion_point(order, keys, k) == order.len(),
    decreases order.len(),
{
    if order.len() > 0 {
        let rest = order.drop_first();
        assert(!key_before(k, keys[order[0]]));
        assert forall|j: int| 0 <= j < rest.len() implies !key_before(k, #[trigger] keys[rest[j]]) by {
            assert(rest[j] == order[j + 1]);
        }
        lemma_insertion_point_last(rest, keys, k);
    }
}

/// The sorted prefix holds each position once, in key order: no key comes
/// before an earlier one.
pub proof fn lemma_sorted_prefix_sorted(keys: Seq<(u128, u64)>, n: nat)
    requires
        n <= keys.len(),
    ensures
        forall|i: int, j: int| 0 <= i < j < n ==> #[trigger] sorted_prefix(keys, n)[i] != #[trigger] sorted_prefix(keys, n)[j],
        forall|i: int, j: int| 0 <= i < j < n ==> !key_before(
            keys[#[trigger] sorted_prefix(keys, n)[j]],
            keys[#[trigger] sorted_prefix(keys, n)[i]],
        ),
    decreases n,
{
    lemma_sorted_prefix_range(keys, n);
    if n > 0 {
        let prior = sorted_prefix(keys, (n - 1) as nat);
        let k = keys[n - 1];
        lemma_sorted_prefix_sorted(keys, (n - 1) as nat);
        lemma_sorted_prefix_range(keys, (n - 1) as nat);
        lemma_insertion_point_facts(prior, keys, k);
        lemma_insertion_point_bounds(prior, keys, k);
        let p = insertion_point(prior, keys, k);
        let o = sorted_prefix(keys, n);
        assert(o == prior.insert(p, n - 1));
        assert forall|j: int| 0 <= j < n implies #[trigger] o[j] == (if j < p {
            prior[j]
        } else if j == p {
            n - 1
        } else {
            prior[j - 1]
        }) by {}
        assert forall|i: int, j: int| 0 <= i < j < n implies #[trigger] o[i] != #[trigger] o[j] && !key_before(keys[o[j]], keys[o[i]]) by {
            if j < p {
                assert(prior[i] != prior[j]);
            } else if j == p {
                assert(prior[i] < n - 1);
            } else if i < p {
                assert(prior[i] != prior[j - 1]);
            } else if i == p {
                assert(prior[j - 1] < n - 1);
                if p < prior.len() && j - 1 > p {
                    assert(!key_before(keys[prior[j - 1]], keys[prior[p]]));
                }
            } else {
                assert(prior[i - 1] != prior[j - 1]);
            }
        }
    }
}

/// With distinct keys, the sorted order visits each position once and
/// its keys ascend strictly.
pub proof fn lemma_sorted_order_ascending(keys: Seq<(u128, u64)>)
    requires
        distinct_keys(keys),
    ensures
        sorted_order(keys).len() == keys.len(),
        forall|j: int| 0 <= j < keys.len() ==> 0 <= #[trigger] sorted_order(keys)[j] < keys.len(),
        forall|i: int, j: int| 0 <= i < j < keys.len() ==> #[trigger] sorted_order(keys)[i] != #[trigger] sorted_order(keys)[j],
        keys_ascending(keys_at(keys, sorted_order(keys))),
{
    let o = sorted_order(keys);
    lemma_sorted_prefix_range(keys, keys.len());
    lemma_sorted_prefix_sorted(keys, keys.len());
    let s = keys_at(keys, o);
    assert forall|i: int, j: int| 0 <= i < j < s.len() implies key_before(#[trigger] s[i], #[trigger] s[j]) by {
        assert(o[i] != o[j]);
        assert(!key_before(keys[o[j]], keys[o[i]]));
        if o[i] < o[j] {
            assert(keys[o[i]] != keys[o[j]]);
        } else {
            assert(keys[o[j]] != keys[o[i]]);
        }
    }
}

/// Keys already in ascending order keep their order.
pub proof fn lemma_sorted_order_identity(keys: Seq<(u128, u64)>)
    requires
        keys_ascending(keys),
    ensures
        sorted_order(keys) == Seq::new(keys.len(), |i: int| i),
{
    lemma_sorted_prefix_identity(keys, keys.len());
}

proof fn lemma_sorted_prefix_identity(keys: Seq<(u128, u64)>, n: nat)
    requires
        keys_ascending(keys),
        n <= keys.len(),
    ensures
        sorted_prefix(keys, n) == Seq::new(n, |i: int| i),
    decreases n,
{
    if n > 0 {
        lemma_sorted_prefix_identity(keys, (n - 1) as nat);
        let prior = sorted_prefix(keys, (n - 1) as nat);
        let k = keys[n - 1];
        assert forall|j: int| 0 <= j < prior.len() implies !key_before(k, #[trigger] keys[prior[j]]) by {
            assert(prior[j] == j);
            assert(key_before(keys[j], keys[n - 1]));
        }
        lemma_insertion_point_last(prior, keys, k);
        assert(prior.insert(n - 1, n - 1) =~= Seq::new(n, |i: int| i));
    }
}


/// The insertion point lies within the order.
pub proof fn lemma_insertion_point_bounds_pub(order: Seq<int>, keys: Seq<(u128, u64)>, k: (u128, u64))
    ensures
        0 <= insertion_point(order, keys, k) <= order.len(),
{
    lemma_insertion_point_bounds(order, keys, k);
}

} // verus!
