//! A partial map from `usize` keys to values, stored as a vector of slots.
//!
//! Slot `k` holds the value of key `k`, if the key has one. The abstract value
//! of a map is a `Map<usize, T>`.

use crate::utils::uset::USet;
use crate::utils::window::{
    is_greatest, is_least, lemma_lists_ends, lemma_raised_keys, lemma_window_bound, lists,
    raised_keys, window_keys,
};
use vstd::prelude::*;
use vstd::std_specs::cmp::{PartialEqSpec, PartialEqSpecImpl};

verus! {

/// Which slots hold a value.
pub open spec fn occupied<T>(slots: Seq<Option<T>>) -> Seq<bool> {
    Seq::new(slots.len(), |i: int| slots[i].is_some())
}

/// The map that a sequence of slots stands for.
pub open spec fn slots_map<T>(slots: Seq<Option<T>>) -> Map<usize, T> {
    Map::new(
        |k: usize| k < slots.len() && slots[k as int].is_some(),
        |k: usize| slots[k as int].unwrap(),
    )
}

/// `to` has the keys of `from`, each with a clone of its value.
pub open spec fn copies<T: Clone>(from: Map<usize, T>, to: Map<usize, T>) -> bool {
    &&& to.dom() == from.dom()
    &&& forall|k: usize| from.contains_key(k) ==> cloned(#[trigger] from[k], to[k])
}

/// The keys of a sequence of slots are the keys of its window of flags.
pub proof fn lemma_slots_dom<T>(slots: Seq<Option<T>>)
    ensures
        slots_map(slots).dom() == window_keys(occupied(slots), 0),
        slots_map(slots).dom().finite(),
        slots_map(slots).dom().len() <= slots.len(),
{
    lemma_window_bound(occupied(slots), 0);
}

/// Filling a slot inserts its key.
pub proof fn lemma_slot_filled<T>(slots: Seq<Option<T>>, key: usize, value: T)
    requires
        key < slots.len(),
    ensures
        slots_map(slots.update(key as int, Some(value))) == slots_map(slots).insert(key, value),
{
    assert(slots_map(slots.update(key as int, Some(value))) =~= slots_map(slots).insert(
        key,
        value,
    ));
}

/// Clearing a slot removes its key.
pub proof fn lemma_slot_cleared<T>(slots: Seq<Option<T>>, key: usize)
    requires
        key < slots.len(),
    ensures
        slots_map(slots.update(key as int, None)) == slots_map(slots).remove(key),
{
}

/// Slots without a value stand for the empty map.
pub proof fn lemma_slots_vacant<T>(slots: Seq<Option<T>>)
    requires
        forall|i: int| 0 <= i < slots.len() ==> slots[i].is_none(),
    ensures
        slots_map(slots) == Map::<usize, T>::empty(),
{
}

/// The keys of a listing of entries.
pub open spec fn entry_keys<T>(listing: Seq<(usize, T)>) -> Seq<usize> {
    listing.map_values(|entry: (usize, T)| entry.0)
}

/// `listing` holds exactly the entries of `map`, each once, in ascending
/// order of the keys.
pub open spec fn lists_entries<T>(map: Map<usize, T>, listing: Seq<(usize, T)>) -> bool {
    &&& lists(map.dom(), entry_keys(listing))
    &&& forall|i: int| 0 <= i < listing.len() ==> (#[trigger] listing[i]).1 == map[listing[i].0]
}

/// The map that a sequence of pairs stands for when a later pair replaces
/// an earlier one with the same key.
pub open spec fn pairs_map<T>(pairs: Seq<(usize, T)>) -> Map<usize, T>
    decreases pairs.len(),
{
    if pairs.len() == 0 {
        Map::empty()
    } else {
        pairs_map(pairs.drop_last()).insert(pairs.last().0, pairs.last().1)
    }
}

/// The entries of both maps, with the value of `first` for a key of both;
/// the keys of both are left out unless `keep_common` holds.
pub open spec fn merged<T>(first: Map<usize, T>, second: Map<usize, T>, keep_common: bool) -> Map<
    usize,
    T,
> {
    if keep_common {
        second.union_prefer_right(first)
    } else {
        second.union_prefer_right(first).remove_keys(first.dom().intersect(second.dom()))
    }
}

/// The entries of `map` whose keys are in `keys`, or, unless `keep` holds,
/// those whose keys are not.
pub open spec fn sifted<T>(map: Map<usize, T>, keys: Set<usize>, keep: bool) -> Map<usize, T> {
    if keep {
        map.restrict(keys)
    } else {
        map.remove_keys(keys)
    }
}

/// The entries of the slots `from..to`, in ascending order of the keys.
pub open spec fn slot_entries<T>(slots: Seq<Option<T>>, from: int, to: int) -> Seq<(usize, T)>
    decreases to - from,
{
    if from >= to {
        Seq::empty()
    } else if slots[to - 1].is_some() {
        slot_entries(slots, from, to - 1).push(((to - 1) as usize, slots[to - 1].unwrap()))
    } else {
        slot_entries(slots, from, to - 1)
    }
}

/// The keys of the entries of the slots `from..to` are the keys of the
/// raised flags of these slots, and each entry is what its slot holds.
pub proof fn lemma_slot_entries<T>(slots: Seq<Option<T>>, from: int, to: int)
    requires
        0 <= from <= to <= slots.len() <= usize::MAX,
    ensures
        entry_keys(slot_entries(slots, from, to)) == raised_keys(occupied(slots), 0, from, to),
        forall|i: int|
            0 <= i < slot_entries(slots, from, to).len() ==> {
                let entry = #[trigger] slot_entries(slots, from, to)[i];
                entry.0 < slots.len() && slots[entry.0 as int] == Some(entry.1)
            },
    decreases to - from,
{
    if from < to {
        lemma_slot_entries(slots, from, to - 1);
    }
}

/// The entries of the slots `from..to` are those of the slots after the
/// first, with the entry of the first before them if it holds a value.
pub proof fn lemma_entries_front<T>(slots: Seq<Option<T>>, from: int, to: int)
    requires
        0 <= from < to <= slots.len(),
    ensures
        slot_entries(slots, from, to) == if slots[from].is_some() {
            seq![(from as usize, slots[from].unwrap())] + slot_entries(slots, from + 1, to)
        } else {
            slot_entries(slots, from + 1, to)
        },
    decreases to - from,
{
    if from + 1 == to {
        assert(slot_entries(slots, from, from) =~= Seq::<(usize, T)>::empty());
    } else {
        lemma_entries_front(slots, from, to - 1);
    }
}

/// The entries of all slots list the map of the slots.
pub proof fn lemma_slots_listing<T>(slots: Seq<Option<T>>)
    requires
        slots.len() <= usize::MAX,
    ensures
        lists_entries(slots_map(slots), slot_entries(slots, 0, slots.len() as int)),
{
    lemma_slot_entries(slots, 0, slots.len() as int);
    lemma_raised_keys(occupied(slots), 0, 0, slots.len() as int);
}

/// The keys of the map of a sequence of pairs are the keys of the pairs.
pub proof fn lemma_pairs_keys<T>(pairs: Seq<(usize, T)>)
    ensures
        forall|i: int| 0 <= i < pairs.len() ==> pairs_map(pairs).contains_key((#[trigger] pairs[i]).0),
        forall|k: usize|
            pairs_map(pairs).contains_key(k) ==> exists|i: int|
                0 <= i < pairs.len() && (#[trigger] pairs[i]).0 == k,
    decreases pairs.len(),
{
    if pairs.len() > 0 {
        let front = pairs.drop_last();
        lemma_pairs_keys(front);
        assert forall|i: int| 0 <= i < pairs.len() implies pairs_map(pairs).contains_key(
            (#[trigger] pairs[i]).0,
        ) by {
            if i < front.len() {
                assert(front[i] == pairs[i]);
            }
        }
        assert forall|k: usize| pairs_map(pairs).contains_key(k) implies exists|i: int|
            0 <= i < pairs.len() && (#[trigger] pairs[i]).0 == k by {
            if k == pairs.last().0 {
            } else {
                assert(pairs_map(front).contains_key(k));
            }
        }
    }
}

/// Fills the vacant slot `key` and returns the number of keys afterwards.
fn fill<T>(slots: &mut Vec<Option<T>>, key: usize, value: T, len: usize) -> (count: usize)
    requires
        key < old(slots)@.len(),
        old(slots)@[key as int].is_none(),
        len == slots_map(old(slots)@).dom().len(),
    ensures
        final(slots)@ == old(slots)@.update(key as int, Some(value)),
        slots_map(final(slots)@) == slots_map(old(slots)@).insert(key, value),
        count == len + 1,
        count == slots_map(final(slots)@).dom().len(),
{
    let _slots = slots.len();
    proof {
        lemma_slot_filled(slots@, key, value);
        lemma_slots_dom(slots@);
        lemma_slots_dom(slots@.update(key as int, Some(value)));
    }
    slots.set(key, Some(value));
    len + 1
}

/// A partial map from `usize` keys to values of type `T`. Two maps are
/// equal when they have the same keys with equal values, however many slots
/// they have.
#[derive(Debug)]
pub struct UMap<T> {
    vec: Vec<Option<T>>,
    len: usize,
}

impl<T> View for UMap<T> {
    type V = Map<usize, T>;

    closed spec fn view(&self) -> Map<usize, T> {
        slots_map(self.vec@)
    }
}

impl<T> UMap<T> {
    #[verifier::type_invariant]
    spec fn inv(self) -> bool {
        self.len == slots_map(self.vec@).dom().len()
    }

    /// Number of slots.
    pub closed spec fn spec_capacity(&self) -> nat {
        self.vec@.len()
    }

    /// Every key is smaller than the number of slots.
    pub proof fn lemma_keys_below_capacity(self)
        ensures
            self@.dom().finite(),
            forall|k: usize| self@.contains_key(k) ==> k < self.spec_capacity(),
    {
        lemma_slots_dom(self.vec@);
    }

    /// A map without slots, to stand in for one that is being rebuilt.
    fn hollow() -> (m: Self)
        ensures
            m.vec@.len() == 0,
    {
        let vec: Vec<Option<T>> = Vec::new();
        proof {
            lemma_slots_vacant(vec@);
        }
        UMap { vec, len: 0 }
    }

    pub fn len(&self) -> (n: usize)
        ensures
            self@.dom().finite(),
            n == self@.dom().len(),
    {
        proof {
            use_type_invariant(self);
            lemma_slots_dom(self.vec@);
        }
        self.len
    }

    pub fn is_empty(&self) -> (b: bool)
        ensures
            b <==> self@ == Map::<usize, T>::empty(),
            b <==> self@.dom().len() == 0,
    {
        proof {
            use_type_invariant(self);
            lemma_slots_dom(self.vec@);
            if self.len == 0 {
                assert(self@ =~= Map::<usize, T>::empty());
            }
        }
        self.len == 0
    }

    pub fn capacity(&self) -> (n: usize)
        ensures
            n == self.spec_capacity(),
    {
        self.vec.len()
    }

    pub fn contains(&self, key: usize) -> (b: bool)
        ensures
            b == self@.contains_key(key),
    {
        key < self.vec.len() && self.vec[key].is_some()
    }

    /// The value of `key`, borrowed.
    pub fn get_ref(&self, key: usize) -> (value: Option<&T>)
        ensures
            value == if self@.contains_key(key) {
                Some(&self@[key])
            } else {
                None
            },
    {
        if key < self.vec.len() {
            self.vec[key].as_ref()
        } else {
            None
        }
    }

    /// Gives `key` the value `value`, growing the map to `key + 1` slots if
    /// it has fewer.
    pub fn put(&mut self, key: usize, value: T)
        requires
            key < usize::MAX,
        ensures
            final(self)@ == old(self)@.insert(key, value),
            final(self).spec_capacity() == if key < old(self).spec_capacity() {
                old(self).spec_capacity()
            } else {
                (key + 1) as nat
            },
    {
        proof {
            use_type_invariant(&*self);
        }
        let mut taken = UMap::hollow();
        core::mem::swap(self, &mut taken);
        let UMap { mut vec, mut len } = taken;
        let ghost before = vec@;
        if key >= vec.len() {
            let mut n = vec.len();
            while n <= key
                invariant
                    key < usize::MAX,
                    n == vec@.len(),
                    before.len() <= n <= key + 1,
                    vec@.subrange(0, before.len() as int) == before,
                    forall|i: int| before.len() <= i < n ==> vec@[i].is_none(),
                decreases key + 1 - n,
            {
                vec.push(None);
                n += 1;
            }
            assert(slots_map(vec@) =~= slots_map(before));
        }
        proof {
            lemma_slot_filled(vec@, key, value);
            lemma_slots_dom(vec@);
            lemma_slots_dom(vec@.update(key as int, Some(value)));
        }
        if vec[key].is_none() {
            len = len + 1;
        }
        vec.set(key, Some(value));
        *self = UMap { vec, len };
    }

    /// Takes the value of `key` out of the map.
    pub fn remove(&mut self, key: usize) -> (value: Option<T>)
        ensures
            final(self)@ == old(self)@.remove(key),
            final(self).spec_capacity() == old(self).spec_capacity(),
            value == if old(self)@.contains_key(key) {
                Some(old(self)@[key])
            } else {
                None
            },
    {
        proof {
            use_type_invariant(&*self);
        }
        if key < self.vec.len() && self.vec[key].is_some() {
            let mut taken = UMap::hollow();
            core::mem::swap(self, &mut taken);
            let UMap { mut vec, mut len } = taken;
            proof {
                lemma_slot_cleared(vec@, key);
                lemma_slots_dom(vec@);
                assert(slots_map(vec@).dom().contains(key));
            }
            let mut slot: Option<T> = None;
            core::mem::swap(&mut vec[key], &mut slot);
            len = len - 1;
            *self = UMap { vec, len };
            slot
        } else {
            None
        }
    }

    /// A cursor over all entries.
    pub fn iter(&self) -> (it: UMapIter<'_, T>)
        ensures
            lists_entries(self@, it@),
    {
        let _slots = self.vec.len();
        proof {
            lemma_slots_listing(self.vec@);
        }
        UMapIter { handle: self, index: 0, rindex: 0 }
    }

    /// The smallest key, if there is one.
    pub fn min(&self) -> (key: Option<usize>)
        ensures
            match key {
                Some(k) => is_least(self@.dom(), k),
                None => self@ == Map::<usize, T>::empty(),
            },
    {
        let mut it = self.iter();
        proof {
            lemma_lists_ends(self@.dom(), entry_keys(it@));
        }
        match it.next() {
            Some(entry) => Some(entry.0),
            None => None,
        }
    }

    /// The largest key, if there is one.
    pub fn max(&self) -> (key: Option<usize>)
        ensures
            match key {
                Some(k) => is_greatest(self@.dom(), k),
                None => self@ == Map::<usize, T>::empty(),
            },
    {
        let mut it = self.iter();
        proof {
            lemma_lists_ends(self@.dom(), entry_keys(it@));
        }
        match it.next_back() {
            Some(entry) => Some(entry.0),
            None => None,
        }
    }

    /// The keys that have a value, in a window with a flag for every slot.
    pub fn to_set(&self) -> (keys: USet)
        ensures
            keys@ == self@.dom(),
            keys.spec_capacity() == self.spec_capacity(),
    {
        let mut flags: Vec<bool> = Vec::new();
        let mut n: usize = 0;
        while n < self.vec.len()
            invariant
                n <= self.vec@.len(),
                flags@.len() == n,
                forall|i: int| 0 <= i < n ==> flags@[i] == self.vec@[i].is_some(),
            decreases self.vec@.len() - n,
        {
            flags.push(self.vec[n].is_some());
            n += 1;
        }
        USet::from_fields(flags, 0)
    }
}

impl<T: Clone> UMap<T> {
    /// A map without keys and without slots.
    pub fn new() -> (m: Self)
        ensures
            m@ == Map::<usize, T>::empty(),
            m.spec_capacity() == 0,
    {
        UMap::with_capacity(0)
    }

    /// A map without keys and with `size` slots.
    pub fn with_capacity(size: usize) -> (m: Self)
        ensures
            m@ == Map::<usize, T>::empty(),
            m.spec_capacity() == size,
    {
        let vec: Vec<Option<T>> = vec![None; size];
        proof {
            lemma_slots_vacant(vec@);
        }
        UMap { vec, len: 0 }
    }

    /// The map of the pairs of `org_vec`, each value cloned; where a key
    /// comes more than once, its last pair counts. The map has one slot more
    /// than its largest key.
    pub fn from_vec(org_vec: &[(usize, T)]) -> (m: Self)
        requires
            forall|i: int| 0 <= i < org_vec@.len() ==> (#[trigger] org_vec@[i]).0 < usize::MAX,
        ensures
            copies(pairs_map(org_vec@), m@),
            org_vec@.len() == 0 ==> m.spec_capacity() == 1,
            org_vec@.len() > 0 ==> is_greatest(m@.dom(), (m.spec_capacity() - 1) as usize),
    {
        let mut mx: usize = 0;
        let mut n: usize = 0;
        while n < org_vec.len()
            invariant
                n <= org_vec@.len(),
                forall|i: int| 0 <= i < n ==> (#[trigger] org_vec@[i]).0 <= mx,
                n == 0 ==> mx == 0,
                n > 0 ==> exists|i: int| 0 <= i < n && (#[trigger] org_vec@[i]).0 == mx,
            decreases org_vec@.len() - n,
        {
            if org_vec[n].0 > mx {
                mx = org_vec[n].0;
            }
            n += 1;
        }
        let slots: usize = mx + 1;
        let mut vec: Vec<Option<T>> = vec![None; slots];
        let mut len: usize = 0;
        proof {
            lemma_slots_vacant(vec@);
        }
        n = 0;
        while n < org_vec.len()
            invariant
                n <= org_vec@.len(),
                vec@.len() == mx + 1,
                forall|i: int| 0 <= i < org_vec@.len() ==> (#[trigger] org_vec@[i]).0 <= mx,
                copies(pairs_map(org_vec@.take(n as int)), slots_map(vec@)),
                len == slots_map(vec@).dom().len(),
            decreases org_vec@.len() - n,
        {
            let key = org_vec[n].0;
            let value = org_vec[n].1.clone();
            let ghost shorter = org_vec@.take(n as int);
            let ghost before = slots_map(vec@);
            proof {
                assert(org_vec@.take(n + 1).drop_last() =~= shorter);
            }
            if vec[key].is_none() {
                len = fill(&mut vec, key, value, len);
            } else {
                assert(before.dom().insert(key) =~= before.dom());
                vec.set(key, Some(value));
            }
            proof {
                let goal = pairs_map(org_vec@.take(n + 1));
                assert(goal.dom() =~= slots_map(vec@).dom());
                assert forall|k: usize| goal.contains_key(k) implies cloned(
                    #[trigger] goal[k],
                    slots_map(vec@)[k],
                ) by {}
            }
            n += 1;
        }
        proof {
            assert(org_vec@.take(org_vec@.len() as int) =~= org_vec@);
            if org_vec@.len() > 0 {
                lemma_pairs_keys(org_vec@);
            }
        }
        UMap { vec, len }
    }

    /// The entries that `rule` takes from `self` and from `other`.
    fn merge(&self, other: &UMap<T>, keep_common: bool) -> (m: Self)
        ensures
            copies(merged(self@, other@, keep_common), m@),
            m.spec_capacity() == if self.spec_capacity() > other.spec_capacity() {
                self.spec_capacity()
            } else {
                other.spec_capacity()
            },
    {
        let slots: usize = if self.vec.len() > other.vec.len() {
            self.vec.len()
        } else {
            other.vec.len()
        };
        let mut vec: Vec<Option<T>> = vec![None; slots];
        let mut len: usize = 0;
        let ghost goal = merged(self@, other@, keep_common);
        proof {
            lemma_slots_vacant(vec@);
        }
        let mut key: usize = 0;
        while key < slots
            invariant
                key <= slots,
                vec@.len() == slots,
                slots >= self.vec@.len(),
                slots >= other.vec@.len(),
                goal == merged(self@, other@, keep_common),
                forall|k: usize|
                    k < key ==> ((#[trigger] vec@[k as int]).is_some() <==> goal.contains_key(k)),
                forall|k: usize|
                    k < key && goal.contains_key(k) ==> cloned(
                        #[trigger] goal[k],
                        vec@[k as int].unwrap(),
                    ),
                forall|i: int| key <= i < slots ==> vec@[i].is_none(),
                len == slots_map(vec@).dom().len(),
            decreases slots - key,
        {
            let here = self.contains(key);
            let there = other.contains(key);
            if here && (keep_common || !there) {
                let value = self.vec[key].clone().unwrap();
                len = fill(&mut vec, key, value, len);
            } else if there && !here {
                let value = other.vec[key].clone().unwrap();
                len = fill(&mut vec, key, value, len);
            }
            key += 1;
        }
        proof {
            assert forall|k: usize| goal.contains_key(k) implies k < slots by {}
            assert(slots_map(vec@).dom() =~= goal.dom());
        }
        UMap { vec, len }
    }

    /// The entries of `self` that `uset` keeps or, unless `keep` holds, drops.
    fn sift(&self, uset: &USet, keep: bool) -> (m: Self)
        ensures
            copies(sifted(self@, uset@, keep), m@),
            m.spec_capacity() == self.spec_capacity(),
    {
        let slots = self.vec.len();
        let mut vec: Vec<Option<T>> = vec![None; slots];
        let mut len: usize = 0;
        let ghost goal = sifted(self@, uset@, keep);
        proof {
            lemma_slots_vacant(vec@);
        }
        let mut key: usize = 0;
        while key < slots
            invariant
                key <= slots,
                vec@.len() == slots,
                slots == self.vec@.len(),
                goal == sifted(self@, uset@, keep),
                forall|k: usize|
                    k < key ==> ((#[trigger] vec@[k as int]).is_some() <==> goal.contains_key(k)),
                forall|k: usize|
                    k < key && goal.contains_key(k) ==> cloned(
                        #[trigger] goal[k],
                        vec@[k as int].unwrap(),
                    ),
                forall|i: int| key <= i < slots ==> vec@[i].is_none(),
                len == slots_map(vec@).dom().len(),
            decreases slots - key,
        {
            if self.contains(key) && uset.contains(key) == keep {
                let value = self.vec[key].clone().unwrap();
                len = fill(&mut vec, key, value, len);
            }
            key += 1;
        }
        proof {
            assert forall|k: usize| goal.contains_key(k) implies k < slots by {}
            assert(slots_map(vec@).dom() =~= goal.dom());
        }
        UMap { vec, len }
    }

    /// The entries of both maps. Where both have a key, the value of `self`
    /// is taken, whether or not the two values are equal. The result has as
    /// many slots as the map with more of them, or, if one map is empty, as
    /// the other.
    pub fn union(&self, other: &Self) -> (m: Self)
        ensures
            copies(other@.union_prefer_right(self@), m@),
            m.spec_capacity() == if self@ == Map::<usize, T>::empty() {
                other.spec_capacity()
            } else if other@ == Map::<usize, T>::empty() {
                self.spec_capacity()
            } else if self.spec_capacity() > other.spec_capacity() {
                self.spec_capacity()
            } else {
                other.spec_capacity()
            },
    {
        if self.is_empty() {
            assert(other@.union_prefer_right(self@) =~= other@);
            other.clone()
        } else if other.is_empty() {
            assert(other@.union_prefer_right(self@) =~= self@);
            self.clone()
        } else {
            self.merge(other, true)
        }
    }

    /// The entries of `self` whose keys are members of `uset`. The result
    /// has the slots of `self`, or none if it is bound to be empty.
    pub fn subset(&self, uset: &USet) -> (m: Self)
        ensures
            copies(self@.restrict(uset@), m@),
            m.spec_capacity() == if uset@ == Set::<usize>::empty() || self@ == Map::<
                usize,
                T,
            >::empty() {
                0
            } else {
                self.spec_capacity()
            },
    {
        if uset.is_empty() || self.is_empty() {
            assert(self@.restrict(uset@) =~= Map::<usize, T>::empty());
            UMap::new()
        } else {
            self.sift(uset, true)
        }
    }

    /// The entries of `self` whose keys are not members of `uset`. The
    /// result has the slots of `self`, or none if `self` is empty and `uset`
    /// is not.
    pub fn substract(&self, uset: &USet) -> (m: Self)
        ensures
            copies(self@.remove_keys(uset@), m@),
            m.spec_capacity() == if uset@ != Set::<usize>::empty() && self@ == Map::<
                usize,
                T,
            >::empty() {
                0
            } else {
                self.spec_capacity()
            },
    {
        if uset.is_empty() {
            assert(self@.remove_keys(uset@) =~= self@);
            self.clone()
        } else if self.is_empty() {
            assert(self@.remove_keys(uset@) =~= Map::<usize, T>::empty());
            UMap::new()
        } else {
            self.sift(uset, false)
        }
    }

    /// The entries whose keys only one of the two maps has. The result has
    /// as many slots as the map with more of them.
    pub fn xor(&self, other: &Self) -> (m: Self)
        ensures
            copies(
                other@.union_prefer_right(self@).remove_keys(self@.dom().intersect(other@.dom())),
                m@,
            ),
            m.spec_capacity() == if self.spec_capacity() > other.spec_capacity() {
                self.spec_capacity()
            } else {
                other.spec_capacity()
            },
    {
        self.merge(other, false)
    }

    /// A clone of the value of `key`.
    pub fn get(&self, key: usize) -> (value: Option<T>)
        ensures
            match value {
                Some(v) => self@.contains_key(key) && cloned(self@[key], v),
                None => !self@.contains_key(key),
            },
    {
        if key < self.vec.len() {
            self.vec[key].clone()
        } else {
            None
        }
    }
}

/// A cursor over the entries of a map that can be advanced from both ends.
/// Its abstract value is the sequence of the entries still to come, in
/// ascending order of the keys.
pub struct UMapIter<'a, T> {
    handle: &'a UMap<T>,
    index: usize,
    rindex: usize,
}

impl<'a, T> View for UMapIter<'a, T> {
    type V = Seq<(usize, T)>;

    closed spec fn view(&self) -> Seq<(usize, T)> {
        slot_entries(self.handle.vec@, self.index as int, self.handle.vec@.len() - self.rindex)
    }
}

impl<'a, T> UMapIter<'a, T> {
    #[verifier::type_invariant]
    spec fn inv(self) -> bool {
        self.index + self.rindex <= self.handle.vec@.len()
    }

    /// Takes the entry with the smallest key still to come.
    pub fn next(&mut self) -> (item: Option<(usize, &'a T)>)
        ensures
            old(self)@.len() == 0 ==> item.is_none() && final(self)@ == old(self)@,
            old(self)@.len() > 0 ==> item == Some((old(self)@.first().0, &old(self)@.first().1))
                && final(self)@ == old(self)@.drop_first(),
    {
        proof {
            use_type_invariant(&*self);
        }
        let handle = self.handle;
        let end = handle.vec.len() - self.rindex;
        while self.index < end
            invariant
                self.handle == old(self).handle,
                handle == self.handle,
                self.rindex == old(self).rindex,
                self.index <= end,
                end == self.handle.vec@.len() - self.rindex,
                self@ == old(self)@,
            decreases end - self.index,
        {
            let index = self.index;
            proof {
                lemma_entries_front(self.handle.vec@, index as int, end as int);
            }
            self.index += 1;
            match handle.vec[index].as_ref() {
                Some(value) => {
                    return Some((index, value));
                },
                None => {},
            }
        }
        None
    }

    /// Takes the entry with the largest key still to come.
    pub fn next_back(&mut self) -> (item: Option<(usize, &'a T)>)
        ensures
            old(self)@.len() == 0 ==> item.is_none() && final(self)@ == old(self)@,
            old(self)@.len() > 0 ==> item == Some((old(self)@.last().0, &old(self)@.last().1))
                && final(self)@ == old(self)@.drop_last(),
    {
        proof {
            use_type_invariant(&*self);
        }
        let handle = self.handle;
        let len = handle.vec.len();
        while self.rindex < len - self.index
            invariant
                self.handle == old(self).handle,
                handle == self.handle,
                self.index == old(self).index,
                self.index + self.rindex <= len,
                len == self.handle.vec@.len(),
                self@ == old(self)@,
            decreases len - self.index - self.rindex,
        {
            let index = len - self.rindex - 1;
            self.rindex += 1;
            match handle.vec[index].as_ref() {
                Some(value) => {
                    return Some((index, value));
                },
                None => {},
            }
        }
        None
    }
}

/// The two maps have equal values wherever both have a key.
pub open spec fn agree<T: PartialEq>(first: Map<usize, T>, second: Map<usize, T>) -> bool {
    forall|k: usize|
        first.contains_key(k) && second.contains_key(k) ==> (#[trigger] first[k]).eq_spec(
            &second[k],
        )
}

impl<T: PartialEq> UMap<T> {
    /// Whether the two maps have equal values wherever both have a key.
    pub fn debug_compare(&self, other: &UMap<T>) -> (same: bool)
        ensures
            T::obeys_eq_spec() ==> same == agree(self@, other@),
    {
        let slots: usize = if self.vec.len() < other.vec.len() {
            self.vec.len()
        } else {
            other.vec.len()
        };
        let mut key: usize = 0;
        while key < slots
            invariant
                key <= slots,
                slots <= self.vec@.len(),
                slots <= other.vec@.len(),
                T::obeys_eq_spec() ==> forall|k: usize|
                    k < key && self@.contains_key(k) && other@.contains_key(k) ==> (
                    #[trigger] self@[k]).eq_spec(&other@[k]),
            decreases slots - key,
        {
            match (self.vec[key].as_ref(), other.vec[key].as_ref()) {
                (Some(here), Some(there)) => {
                    if !(*here == *there) {
                        proof {
                            if T::obeys_eq_spec() {
                                assert(!self@[key].eq_spec(&other@[key]));
                            }
                        }
                        return false;
                    }
                },
                _ => {},
            }
            key += 1;
        }
        true
    }
}

impl<T: PartialEq> PartialEqSpecImpl for UMap<T> {
    open spec fn obeys_eq_spec() -> bool {
        T::obeys_eq_spec()
    }

    /// Two maps are equal when they have the same keys with equal values,
    /// however many slots they have.
    open spec fn eq_spec(&self, other: &UMap<T>) -> bool {
        self@.dom() == other@.dom() && agree(self@, other@)
    }
}

impl<T: PartialEq> PartialEq for UMap<T> {
    fn eq(&self, other: &UMap<T>) -> (same: bool) {
        proof {
            use_type_invariant(self);
            use_type_invariant(other);
        }
        if self.len != other.len {
            return false;
        }
        let slots: usize = if self.vec.len() > other.vec.len() {
            self.vec.len()
        } else {
            other.vec.len()
        };
        let mut key: usize = 0;
        while key < slots
            invariant
                key <= slots,
                slots >= self.vec@.len(),
                slots >= other.vec@.len(),
                forall|k: usize| k < key ==> self@.contains_key(k) == other@.contains_key(k),
            decreases slots - key,
        {
            if self.contains(key) != other.contains(key) {
                return false;
            }
            key += 1;
        }
        assert(self@.dom() =~= other@.dom());
        self.debug_compare(other)
    }
}

impl<T: Copy> UMap<T> {
    /// A map with the same entries and as many slots.
    pub fn copied(&self) -> (m: Self)
        ensures
            m@ == self@,
            m.spec_capacity() == self.spec_capacity(),
    {
        let slots = self.vec.len();
        let mut vec: Vec<Option<T>> = Vec::with_capacity(slots);
        let mut len: usize = 0;
        proof {
            lemma_slots_vacant(vec@);
        }
        let mut key: usize = 0;
        while key < slots
            invariant
                key <= slots == self.vec@.len(),
                vec@ == self.vec@.take(key as int),
                len == slots_map(vec@).dom().len(),
            decreases slots - key,
        {
            let ghost before = vec@;
            let slot: Option<T> = match self.vec[key].as_ref() {
                Some(value) => Some(*value),
                None => None,
            };
            vec.push(slot);
            proof {
                lemma_slots_dom(before);
                if slot.is_some() {
                    assert(slots_map(vec@).dom() =~= slots_map(before).dom().insert(key));
                } else {
                    assert(slots_map(vec@).dom() =~= slots_map(before).dom());
                }
            }
            if slot.is_some() {
                len = len + 1;
            }
            key += 1;
        }
        UMap { vec, len }
    }
}

impl<T> Default for UMap<T> {
    /// A map without keys and without slots.
    fn default() -> (m: Self)
        ensures
            m@ == Map::<usize, T>::empty(),
            m.spec_capacity() == 0,
    {
        let vec: Vec<Option<T>> = Vec::new();
        proof {
            lemma_slots_vacant(vec@);
        }
        UMap { vec, len: 0 }
    }
}

impl<T: Clone> Clone for UMap<T> {
    fn clone(&self) -> (m: Self)
        ensures
            copies(self@, m@),
            m.spec_capacity() == self.spec_capacity(),
    {
        proof {
            use_type_invariant(self);
        }
        let vec = self.vec.clone();
        proof {
            assert forall|i: int| 0 <= i < vec@.len() implies vec@[i].is_some()
                == self.vec@[i].is_some() && (vec@[i].is_some() ==> cloned(
                self.vec@[i].unwrap(),
                vec@[i].unwrap(),
            )) by {}
            assert(slots_map(vec@).dom() =~= slots_map(self.vec@).dom());
        }
        UMap { vec, len: self.len }
    }
}

} // verus!
