//! Laws of the set algebra, of listing a set and of writing to a map,
//! stated over the abstract values that the operations are specified with.

use crate::utils::umap::UMap;
use crate::utils::uset::{symmetric_difference, USet};
use crate::utils::window::{lemma_lists_len, lists};
use vstd::prelude::*;

verus! {

/// The union of a set with itself is the set; the difference and the
/// symmetric difference of a set with itself are empty.
pub proof fn lemma_idempotence(a: USet)
    ensures
        a@.union(a@) == a@,
        a@.difference(a@) == Set::<usize>::empty(),
        symmetric_difference(a@, a@) == Set::<usize>::empty(),
{
}

/// Union, intersection and symmetric difference do not depend on the order
/// of their operands.
pub proof fn lemma_commutativity(a: USet, b: USet)
    ensures
        a@.union(b@) == b@.union(a@),
        a@.intersect(b@) == b@.intersect(a@),
        symmetric_difference(a@, b@) == symmetric_difference(b@, a@),
{
}

/// The symmetric difference is the union without the intersection.
pub proof fn lemma_symmetric_difference(a: USet, b: USet)
    ensures
        symmetric_difference(a@, b@) == a@.union(b@).difference(a@.intersect(b@)),
{
}

/// The ascending listing of the set of the entries of a sequence without
/// duplicates is the sequence sorted: it is ascending and holds the same
/// entries the same number of times.
pub proof fn lemma_round_trip(keys: Seq<usize>, set: USet, listing: Seq<usize>)
    requires
        keys.no_duplicates(),
        set@ == keys.to_set(),
        lists(set@, listing),
    ensures
        forall|i: int, j: int| 0 <= i < j < listing.len() ==> listing[i] < listing[j],
        listing.len() == keys.len(),
        listing.to_multiset() == keys.to_multiset(),
{
    lemma_lists_len(set@, listing);
    keys.unique_seq_to_set();
    keys.lemma_multiset_has_no_duplicates();
    listing.lemma_multiset_has_no_duplicates();
    assert forall|k: usize| listing.to_multiset().count(k) == keys.to_multiset().count(k) by {
        vstd::seq_lib::to_multiset_contains(listing, k);
        vstd::seq_lib::to_multiset_contains(keys, k);
    }
}

/// A key that has been written has the value written, and the map has one
/// key more than before if the key had no value and as many if it had one.
pub proof fn lemma_map_growth<T>(map: UMap<T>, key: usize, value: T)
    ensures
        map@.insert(key, value).contains_key(key),
        map@.insert(key, value)[key] == value,
        map@.insert(key, value).dom().len() == map@.dom().len() + if map@.contains_key(key) {
            0int
        } else {
            1int
        },
        map@.insert(key, value).insert(key, value).dom().len() == map@.insert(
            key,
            value,
        ).dom().len(),
{
    map.lemma_keys_below_capacity();
}

} // verus!
