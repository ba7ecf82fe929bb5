//! Ranking by a number: items in rising order of their key, items with equal keys in
//! the order in which they came.

use itertools::Itertools;
use vstd::prelude::*;
use vstd::relations::sorted_by;
use vstd::relations::total_ordering;

verus! {

/// The order of ranking: by key, and at equal keys by place.
pub open spec fn spec_key_leq(a: (u64, usize), b: (u64, usize)) -> bool {
    a.0 < b.0 || (a.0 == b.0 && a.1 <= b.1)
}

/// `spec_key_leq` as a relation.
pub open spec fn spec_key_order() -> spec_fn((u64, usize), (u64, usize)) -> bool {
    |a: (u64, usize), b: (u64, usize)| spec_key_leq(a, b)
}

/// The keys in their rank: in rising order of key and, at equal keys, of place.
pub open spec fn spec_ranked(keys: Seq<(u64, usize)>) -> Seq<(u64, usize)> {
    keys.sort_by(spec_key_order())
}

/// The order of ranking is a total order.
pub proof fn lemma_key_order_total()
    ensures
        total_ordering(spec_key_order()),
{
    let r = spec_key_order();
    assert(vstd::relations::reflexive(r));
    assert(vstd::relations::antisymmetric(r)) by {
        assert forall|x: (u64, usize), y: (u64, usize)| #[trigger] r(x, y) && #[trigger] r(
            y,
            x,
        ) implies x == y by {}
    }
    assert(vstd::relations::transitive(r));
    assert(vstd::relations::strongly_connected(r));
}

/// The ranked keys are the given keys, each as often as it was given, in rising order.
pub proof fn lemma_ranked(keys: Seq<(u64, usize)>)
    ensures
        spec_ranked(keys).len() == keys.len(),
        spec_ranked(keys).to_multiset() == keys.to_multiset(),
        sorted_by(spec_ranked(keys), spec_key_order()),
        forall|r: int| 0 <= r < spec_ranked(keys).len() ==> keys.contains(#[trigger] spec_ranked(keys)[r]),
{
    broadcast use vstd::seq_lib::group_to_multiset_ensures;

    lemma_key_order_total();
    keys.lemma_sort_by_ensures(spec_key_order());
    let ranked = spec_ranked(keys);
    keys.to_multiset_ensures();
    ranked.to_multiset_ensures();
    assert(ranked.to_multiset() == keys.to_multiset());
    assert forall|r: int| 0 <= r < ranked.len() implies keys.contains(#[trigger] ranked[r]) by {
        assert(ranked.contains(ranked[r]));
    }
}

/// Ranking keeps every key once: keys whose places rise come out with places that all
/// differ.
pub proof fn lemma_ranked_places_differ(keys: Seq<(u64, usize)>)
    requires
        forall|i: int, j: int| 0 <= i < j < keys.len() ==> keys[i].1 < keys[j].1,
    ensures
        forall|a: int, b: int|
            0 <= a < b < spec_ranked(keys).len() ==> (#[trigger] spec_ranked(keys)[a]).1 != (
            #[trigger] spec_ranked(keys)[b]).1,
{
    lemma_ranked(keys);
    let ranked = spec_ranked(keys);
    assert(keys.no_duplicates());
    keys.lemma_multiset_has_no_duplicates();
    ranked.lemma_multiset_has_no_duplicates_conv();
    assert forall|a: int, b: int| 0 <= a < b < ranked.len() implies (#[trigger] ranked[a]).1 != (
    #[trigger] ranked[b]).1 by {
        assert(keys.contains(ranked[a]));
        assert(keys.contains(ranked[b]));
        let i = choose|i: int| 0 <= i < keys.len() && keys[i] == ranked[a];
        let j = choose|j: int| 0 <= j < keys.len() && keys[j] == ranked[b];
        if ranked[a].1 == ranked[b].1 {
            if i < j {
                assert(keys[i].1 < keys[j].1);
            } else if j < i {
                assert(keys[j].1 < keys[i].1);
            }
            assert(ranked[a] == ranked[b]);
        }
    }
}

/// Sorts by key. The sort is `Itertools::sorted_by_key`, which hands the items to the
/// stable `slice::sort_by_key`: the result holds the same items, in rising order of
/// their keys, and items with equal keys in the order in which they came. For items
/// whose places rise along the input, as is asked here, that is the rising order of key
/// and place.
#[verifier::external_body]
fn sorted_by_key_stable(keys: Vec<(u64, usize)>) -> (sorted: Vec<(u64, usize)>)
    requires
        forall|i: int, j: int| 0 <= i < j < keys@.len() ==> keys@[i].1 < keys@[j].1,
    ensures
        sorted@.to_multiset() == keys@.to_multiset(),
        sorted_by(sorted@, spec_key_order()),
{
    keys.into_iter().sorted_by_key(|key| key.0).collect()
}

/// Ranks keys whose places rise: the same keys in rising order of key, keys that are
/// equal in the order of their places.
pub fn rank(keys: Vec<(u64, usize)>) -> (ranked: Vec<(u64, usize)>)
    requires
        forall|i: int, j: int| 0 <= i < j < keys@.len() ==> keys@[i].1 < keys@[j].1,
    ensures
        ranked@ == spec_ranked(keys@),
        ranked@.len() == keys@.len(),
        forall|r: int| 0 <= r < ranked@.len() ==> keys@.contains(#[trigger] ranked@[r]),
{
    let ghost given = keys@;
    let sorted = sorted_by_key_stable(keys);
    proof {
        lemma_ranked(given);
        lemma_key_order_total();
        vstd::seq_lib::lemma_sorted_unique(sorted@, spec_ranked(given), spec_key_order());
    }
    sorted
}

} // verus!
