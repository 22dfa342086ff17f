//! A set of `usize` keys stored as a window of flags.
//!
//! The flags cover the keys `offset..offset + vec.len()`; a key is a member
//! when its flag is raised. The abstract value of a set is a `Set<usize>`.

use crate::utils::window::{
    ascending, first_raised, is_greatest, is_least, keys_fit, last_raised, lemma_lists_ascending,
    lemma_raised_front, lemma_window_all_false, lemma_window_bound, lemma_window_extended,
    lemma_window_listing, lemma_window_lower, lemma_window_none_raised, lemma_window_raise,
    lemma_window_rebased, lists, raise_all, raised_keys, rebase, spans_all, window_keys,
};
use core::ops::Range;
use itertools::{Itertools, MinMaxResult};
use vstd::prelude::*;
use vstd::std_specs::cmp::PartialEqSpecImpl;

verus! {

/// Number of flags a fresh set starts with.
pub const INITIAL_CAPACITY: usize = 7;

/// The keys that are members of exactly one of two sets.
pub open spec fn symmetric_difference(a: Set<usize>, b: Set<usize>) -> Set<usize> {
    Set::new(|k: usize| a.contains(k) != b.contains(k))
}

/// A window of `capacity` flags has no flag to spare for `keys`: none for
/// no keys, and otherwise one for each key from the smallest to the largest.
pub open spec fn fits_exactly(keys: Set<usize>, capacity: nat) -> bool {
    &&& keys == Set::<usize>::empty() ==> capacity == 0
    &&& forall|lo: usize, hi: usize|
        is_least(keys, lo) && is_greatest(keys, hi) ==> capacity == hi - lo + 1
}

/// The rule by which a binary operation selects the keys of its result.
#[derive(Clone, Copy)]
enum Rule {
    Either,
    OnlyFirst,
    Both,
    ExactlyOne,
}

spec fn selects(rule: Rule, first: bool, second: bool) -> bool {
    match rule {
        Rule::Either => first || second,
        Rule::OnlyFirst => first && !second,
        Rule::Both => first && second,
        Rule::ExactlyOne => first != second,
    }
}

spec fn combined(rule: Rule, a: Set<usize>, b: Set<usize>) -> Set<usize> {
    Set::new(|k: usize| selects(rule, a.contains(k), b.contains(k)))
}

/// The bookkeeping of a set agrees with its window: `len` counts the raised
/// flags, an empty set is all zeroes, and otherwise `min` and `max` are the
/// first and the last raised flag.
spec fn coherent(bits: Seq<bool>, len: usize, offset: usize, min: usize, max: usize) -> bool {
    &&& window_keys(bits, offset).finite()
    &&& len == window_keys(bits, offset).len()
    &&& if len == 0 {
        min == 0 && max == 0 && offset == 0
    } else {
        &&& offset <= min <= max
        &&& max - offset < bits.len()
        &&& bits[min - offset]
        &&& bits[max - offset]
        &&& forall|i: int| 0 <= i < bits.len() && bits[i] ==> min - offset <= i <= max - offset
    }
}

/// A set of `usize` keys. Two sets are equal when they have the same
/// members, whatever their windows.
#[derive(Debug)]
pub struct USet {
    vec: Vec<bool>,
    len: usize,
    offset: usize,
    min: usize,
    max: usize,
}

/// The smallest and the largest entry of a slice.
enum Extremes {
    NoElements,
    OneElement(usize),
    MinMax(usize, usize),
}

/// `Itertools::minmax` over the entries of a slice: nothing for an empty
/// slice, the entry of a slice of one, and otherwise the smallest and the
/// largest entry.
#[verifier::external_body]
fn minmax(slice: &[usize]) -> (found: Extremes)
    ensures
        match found {
            Extremes::NoElements => slice@.len() == 0,
            Extremes::OneElement(only) => slice@.len() == 1 && only == slice@[0],
            Extremes::MinMax(lo, hi) => slice@.len() >= 2 && is_least(slice@.to_set(), lo)
                && is_greatest(slice@.to_set(), hi),
        },
{
    match slice.iter().minmax() {
        MinMaxResult::NoElements => Extremes::NoElements,
        MinMaxResult::OneElement(&only) => Extremes::OneElement(only),
        MinMaxResult::MinMax(&lo, &hi) => Extremes::MinMax(lo, hi),
    }
}

impl View for USet {
    type V = Set<usize>;

    closed spec fn view(&self) -> Set<usize> {
        window_keys(self.vec@, self.offset)
    }
}

impl USet {
    #[verifier::type_invariant]
    spec fn inv(self) -> bool {
        coherent(self.vec@, self.len, self.offset, self.min, self.max)
    }

    /// What the invariant says about membership.
    proof fn lemma_members(self)
        requires
            self.inv(),
        ensures
            self.len == 0 ==> self@ == Set::<usize>::empty(),
            self.len > 0 ==> is_least(self@, self.min) && is_greatest(self@, self.max),
            forall|k: usize|
                self@.contains(k) <==> self.len > 0 && self.min <= k <= self.max
                    && self.vec@[k - self.offset],
            self.len > 0 ==> self.max - self.min < usize::MAX,
            !spans_all(self@),
    {
        assert(self.vec@.len() == self.vec.len());
    }

    /// A raised flag stands for a key between `min` and `max`.
    proof fn lemma_raised(self, i: int)
        requires
            self.inv(),
            0 <= i < self.vec@.len(),
            self.vec@[i],
        ensures
            self.len > 0,
            self.min <= self.offset + i <= self.max,
    {
        if self.len == 0 {
            assert(self.vec@.len() == self.vec.len());
            assert(window_keys(self.vec@, self.offset).contains(i as usize));
        }
    }

    proof fn lemma_keys_fit(self)
        requires
            self.inv(),
        ensures
            keys_fit(self.vec@, self.offset),
    {
        assert forall|i: int| 0 <= i < self.vec@.len() && self.vec@[i] implies self.offset + i
            <= usize::MAX by {
            self.lemma_raised(i);
        }
    }

    /// An empty set with room for `INITIAL_CAPACITY` flags.
    pub fn new() -> (s: Self)
        ensures
            s@ == Set::<usize>::empty(),
            s.spec_capacity() == INITIAL_CAPACITY,
    {
        USet::with_capacity(INITIAL_CAPACITY)
    }

    /// An empty set with room for `size` flags.
    pub fn with_capacity(size: usize) -> (s: Self)
        ensures
            s@ == Set::<usize>::empty(),
            s.spec_capacity() == size,
    {
        let vec = vec![false; size];
        proof {
            lemma_window_all_false(vec@, 0);
        }
        USet { vec, len: 0, offset: 0, min: 0, max: 0 }
    }

    /// Number of flags in the window.
    pub closed spec fn spec_capacity(&self) -> nat {
        self.vec@.len()
    }

    pub fn len(&self) -> (n: usize)
        ensures
            self@.finite(),
            n == self@.len(),
    {
        proof {
            use_type_invariant(self);
        }
        self.len
    }

    pub fn is_empty(&self) -> (b: bool)
        ensures
            b <==> self@ == Set::<usize>::empty(),
            b <==> self@.len() == 0,
    {
        proof {
            use_type_invariant(self);
            if self.len == 0 {
                assert(self@ =~= Set::<usize>::empty());
            }
        }
        self.len == 0
    }

    pub fn capacity(&self) -> (n: usize)
        ensures
            n == self.spec_capacity(),
    {
        self.vec.len()
    }

    pub fn contains(&self, id: usize) -> (b: bool)
        ensures
            b == self@.contains(id),
    {
        proof {
            use_type_invariant(self);
        }
        self.len > 0 && id >= self.min && id <= self.max && self.vec[id - self.offset]
    }

    /// Makes `id` a member.
    pub fn add(&mut self, id: usize)
        requires
            !spans_all(old(self)@.insert(id)),
        ensures
            final(self)@ == old(self)@.insert(id),
    {
        proof {
            use_type_invariant(&*self);
            self.lemma_members();
        }
        let mut taken = USet::with_capacity(0);
        core::mem::swap(self, &mut taken);
        let USet { mut vec, mut len, mut offset, mut min, mut max } = taken;
        if len == 0 {
            let _flags = vec.len();
            proof {
                lemma_window_none_raised(vec@, 0);
            }
            if vec.len() == 0 {
                vec = vec![false; INITIAL_CAPACITY];
            }
            proof {
                lemma_window_all_false(vec@, id);
                lemma_window_raise(vec@, id, 0);
            }
            vec.set(0, true);
            len = 1;
            min = id;
            max = id;
            offset = id;
        } else if id < offset {
            let wider = rebase(&vec, offset, min, max, id, max);
            proof {
                lemma_window_rebased(vec@, offset, min, max, wider@, id);
                lemma_window_raise(wider@, id, 0);
                lemma_window_bound(wider@.update(0, true), id);
            }
            vec = wider;
            vec.set(0, true);
            len = len + 1;
            min = id;
            offset = id;
        } else if id - offset >= vec.len() {
            if id - offset < usize::MAX {
                let ghost short = vec@;
                vec.resize(id - offset + 1, false);
                proof {
                    lemma_window_extended(short, vec@, offset);
                }
            } else {
                let wider = rebase(&vec, offset, min, max, min, id);
                proof {
                    lemma_window_rebased(vec@, offset, min, max, wider@, min);
                }
                vec = wider;
                offset = min;
            }
            proof {
                lemma_window_raise(vec@, offset, id - offset);
                lemma_window_bound(vec@.update(id - offset, true), offset);
            }
            vec.set(id - offset, true);
            len = len + 1;
            max = id;
        } else if !vec[id - offset] {
            proof {
                lemma_window_raise(vec@, offset, id - offset);
                lemma_window_bound(vec@.update(id - offset, true), offset);
            }
            vec.set(id - offset, true);
            len = len + 1;
            if id < min {
                min = id;
            } else if id > max {
                max = id;
            }
        }
        *self = USet { vec, len, offset, min, max };
    }

    /// Makes `id` a non-member. The window keeps its place unless the set
    /// becomes empty.
    pub fn remove(&mut self, id: usize)
        ensures
            final(self)@ == old(self)@.remove(id),
            final(self).spec_capacity() == old(self).spec_capacity(),
    {
        proof {
            use_type_invariant(&*self);
        }
        if !self.contains(id) {
            return ;
        }
        let mut taken = USet::with_capacity(0);
        core::mem::swap(self, &mut taken);
        let USet { mut vec, mut len, mut offset, mut min, mut max } = taken;
        let ghost before = window_keys(vec@, offset);
        proof {
            lemma_window_lower(vec@, offset, id - offset);
        }
        vec.set(id - offset, false);
        len = len - 1;
        if len == 0 {
            proof {
                let after = before.remove(id);
                assert forall|i: int| 0 <= i < vec@.len() implies !vec@[i] by {
                    if vec@[i] {
                        assert(after.contains((offset + i) as usize));
                    }
                }
                lemma_window_all_false(vec@, 0);
            }
            min = 0;
            max = 0;
            offset = 0;
        } else {
            proof {
                if min == max {
                    assert(before =~= Set::<usize>::empty().insert(id));
                }
            }
            if id == min {
                min = first_raised(&vec, min - offset, max - offset) + offset;
            } else if id == max {
                max = last_raised(&vec, min - offset, max - offset) + offset;
            }
        }
        *self = USet { vec, len, offset, min, max };
    }

    /// Shrinks the window to the keys between the smallest and the largest member.
    pub fn prune(&mut self)
        ensures
            final(self)@ == old(self)@,
            old(self)@ == Set::<usize>::empty() ==> final(self).spec_capacity()
                == old(self).spec_capacity(),
            forall|lo: usize, hi: usize|
                is_least(old(self)@, lo) && is_greatest(old(self)@, hi)
                    ==> final(self).spec_capacity() == hi - lo + 1,
    {
        proof {
            use_type_invariant(&*self);
            self.lemma_members();
        }
        if !self.is_empty() {
            let _flags = self.vec.len();
            let vec = rebase(&self.vec, self.offset, self.min, self.max, self.min, self.max);
            proof {
                lemma_window_rebased(self.vec@, self.offset, self.min, self.max, vec@, self.min);
            }
            *self = USet { vec, len: self.len, offset: self.min, min: self.min, max: self.max };
        }
    }

    /// Removes the member that has `index` smaller members before it and
    /// returns it; does nothing when the set has no more than `index` members.
    pub fn pop(&mut self, index: usize) -> (popped: Option<usize>)
        ensures
            match popped {
                Some(k) => index < old(self)@.len() && k == ascending(old(self)@)[index as int]
                    && final(self)@ == old(self)@.remove(k),
                None => index >= old(self)@.len() && final(self)@ == old(self)@,
            },
            final(self).spec_capacity() == old(self).spec_capacity(),
    {
        let d = self.find_by_index(index);
        if d.is_some() {
            self.remove(d.unwrap());
        }
        d
    }

    /// The member that has `index` smaller members before it.
    pub fn find_by_index(&self, index: usize) -> (found: Option<usize>)
        ensures
            match found {
                Some(k) => index < self@.len() && k == ascending(self@)[index as int],
                None => index >= self@.len(),
            },
    {
        proof {
            use_type_invariant(self);
        }
        if index >= self.len {
            None
        } else {
            let mut it = self.iter();
            let ghost all = it@;
            proof {
                lemma_lists_ascending(self@, all);
            }
            let mut i: usize = 0;
            while i < index
                invariant
                    i <= index < all.len(),
                    it@ == all.subrange(i as int, all.len() as int),
                decreases index - i,
            {
                let _skipped = it.next();
                assert(all.subrange(i as int, all.len() as int).drop_first() =~= all.subrange(
                    i + 1,
                    all.len() as int,
                ));
                i += 1;
            }
            it.next()
        }
    }

    /// A cursor over all members.
    pub fn iter(&self) -> (it: USetIter<'_>)
        ensures
            lists(self@, it@),
            it@ == ascending(self@),
    {
        proof {
            use_type_invariant(self);
            self.lemma_keys_fit();
            lemma_window_listing(self.vec@, self.offset);
            lemma_lists_ascending(
                self@,
                raised_keys(self.vec@, self.offset, 0, self.vec@.len() as int),
            );
        }
        USetIter { handle: self, index: 0, rindex: 0 }
    }

    /// The members in ascending order.
    pub fn to_vec(&self) -> (keys: Vec<usize>)
        ensures
            lists(self@, keys@),
            keys@ == ascending(self@),
    {
        proof {
            use_type_invariant(self);
            self.lemma_keys_fit();
            lemma_window_listing(self.vec@, self.offset);
            lemma_lists_ascending(
                self@,
                raised_keys(self.vec@, self.offset, 0, self.vec@.len() as int),
            );
        }
        let mut keys: Vec<usize> = Vec::new();
        let mut i: usize = 0;
        while i < self.vec.len()
            invariant
                self.inv(),
                i <= self.vec@.len(),
                keys@ == raised_keys(self.vec@, self.offset, 0, i as int),
            decreases self.vec@.len() - i,
        {
            if self.vec[i] {
                keys.push(i + self.offset);
            }
            i += 1;
        }
        keys
    }

    /// The smallest key, the largest key, the number of distinct keys and a
    /// window of flags for the entries of `slice`.
    fn make_from_slice(slice: &[usize]) -> (parts: (usize, usize, usize, Vec<bool>))
        requires
            !spans_all(slice@.to_set()),
        ensures
            window_keys(parts.3@, parts.0) == slice@.to_set(),
            slice@.len() == 0 ==> parts.2 == 0 && parts.0 == 0 && parts.1 == 0 && parts.3@.len()
                == 0,
            slice@.len() > 0 ==> coherent(parts.3@, parts.2, parts.0, parts.0, parts.1),
            slice@.len() > 0 ==> parts.2 > 0,
            slice@.len() == 1 ==> parts.3@.len() == 1,
            slice@.len() >= 2 ==> parts.3@.len() == if parts.1 - parts.0 + 1 > INITIAL_CAPACITY {
                parts.1 - parts.0 + 1
            } else {
                INITIAL_CAPACITY as int
            },
    {
        match minmax(slice) {
            Extremes::NoElements => {
                let vec = Vec::<bool>::new();
                (0, 0, 0, vec)
            },
            Extremes::OneElement(min) => {
                let vec = vec![true];
                proof {
                    assert(slice@.to_set() =~= Set::<usize>::empty().insert(min));
                }
                (min, min, 1, vec)
            },
            Extremes::MinMax(min, max) => {
                let width: usize = max - min + 1;
                let capacity: usize = if width > INITIAL_CAPACITY {
                    width
                } else {
                    INITIAL_CAPACITY
                };
                let mut vec = vec![false; capacity];
                proof {
                    lemma_window_all_false(vec@, min);
                    assert forall|i: int| 0 <= i < slice@.len() implies min <= slice@[i]
                        && slice@[i] - min < vec@.len() by {
                        assert(slice@.to_set().contains(slice@[i]));
                    }
                }
                let len = raise_all(&mut vec, min, slice, 0);
                proof {
                    assert(window_keys(vec@, min) =~= slice@.to_set());
                    assert forall|i: int| 0 <= i < vec@.len() && vec@[i] implies 0 <= i <= max
                        - min by {
                        assert(slice@.to_set().contains((min + i) as usize));
                    }
                    assert(window_keys(vec@, min).contains(max));
                }
                (min, max, len, vec)
            },
        }
    }

    /// The set of the entries of `slice`.
    pub fn from_slice(slice: &[usize]) -> (s: Self)
        requires
            !spans_all(slice@.to_set()),
        ensures
            s@ == slice@.to_set(),
            slice@.len() == 0 ==> s.spec_capacity() == 0,
            slice@.len() == 1 ==> s.spec_capacity() == 1,
            slice@.len() >= 2 ==> forall|lo: usize, hi: usize|
                is_least(s@, lo) && is_greatest(s@, hi) ==> s.spec_capacity() == if hi - lo + 1
                    > INITIAL_CAPACITY {
                    hi - lo + 1
                } else {
                    INITIAL_CAPACITY as int
                },
    {
        if slice.len() == 0 {
            USet::with_capacity(0)
        } else {
            let (min, max, len, new_vec) = USet::make_from_slice(slice);
            let s = USet { vec: new_vec, len, offset: min, min, max };
            proof {
                s.lemma_members();
            }
            s
        }
    }

    /// The set of the keys `r.start..r.end`.
    pub fn from_range(r: Range<usize>) -> (s: Self)
        ensures
            s@ == Set::new(|k: usize| r.start <= k < r.end),
            r.start >= r.end ==> s.spec_capacity() == 0,
            r.start < r.end ==> s.spec_capacity() == if r.end - r.start > INITIAL_CAPACITY {
                r.end - r.start
            } else {
                INITIAL_CAPACITY as int
            },
    {
        if r.start >= r.end {
            USet::with_capacity(0)
        } else {
            let offset = r.start;
            let max = r.end - 1;
            let len = r.end - r.start;
            let capacity: usize = if len > INITIAL_CAPACITY {
                len
            } else {
                INITIAL_CAPACITY
            };
            let mut vec = vec![false; capacity];
            proof {
                lemma_window_all_false(vec@, offset);
            }
            let mut n: usize = 0;
            while n < len
                invariant
                    n <= len <= capacity,
                    len == r.end - r.start,
                    offset == r.start,
                    vec@.len() == capacity,
                    forall|i: int| 0 <= i < vec@.len() ==> vec@[i] == (i < n),
                    window_keys(vec@, offset).finite(),
                    window_keys(vec@, offset).len() == n,
                decreases len - n,
            {
                proof {
                    lemma_window_raise(vec@, offset, n as int);
                }
                vec.set(n, true);
                n += 1;
            }
            USet { vec, len, offset, min: offset, max }
        }
    }

    /// The set whose window is `vec`, with the first flag standing for the key `offset`.
    pub fn from_fields(vec: Vec<bool>, offset: usize) -> (s: Self)
        requires
            forall|i: int| 0 <= i < vec@.len() && vec@[i] ==> offset + i <= usize::MAX,
        ensures
            s@ == window_keys(vec@, offset),
            s.spec_capacity() == vec@.len(),
    {
        let mut len: usize = 0;
        let mut last: usize = 0;
        let mut n: usize = 0;
        proof {
            lemma_window_all_false(vec@.take(0), offset);
        }
        while n < vec.len()
            invariant
                n <= vec@.len(),
                forall|i: int| 0 <= i < vec@.len() && vec@[i] ==> offset + i <= usize::MAX,
                window_keys(vec@.take(n as int), offset).finite(),
                len == window_keys(vec@.take(n as int), offset).len(),
                len <= n,
                len > 0 ==> last < n && vec@[last as int],
                forall|i: int| last < i < n ==> !vec@[i],
                len == 0 ==> forall|i: int| 0 <= i < n ==> !vec@[i],
            decreases vec@.len() - n,
        {
            proof {
                let shorter = vec@.take(n as int);
                let longer = vec@.take(n + 1);
                if vec@[n as int] {
                    assert(window_keys(longer, offset) =~= window_keys(shorter, offset).insert(
                        (offset + n) as usize,
                    ));
                } else {
                    assert(window_keys(longer, offset) =~= window_keys(shorter, offset));
                }
            }
            if vec[n] {
                len = len + 1;
                last = n;
            }
            n += 1;
        }
        assert(vec@.take(vec@.len() as int) =~= vec@);
        if len == 0 {
            proof {
                lemma_window_all_false(vec@, 0);
            }
            USet { vec, len: 0, offset: 0, min: 0, max: 0 }
        } else {
            let first = first_raised(&vec, 0, last);
            USet { vec, len, offset, min: first + offset, max: last + offset }
        }
    }

    /// Makes every entry of `slice` a member.
    pub fn add_all(&mut self, slice: &[usize])
        requires
            !spans_all(old(self)@.union(slice@.to_set())),
        ensures
            final(self)@ == old(self)@.union(slice@.to_set()),
    {
        proof {
            use_type_invariant(&*self);
        }
        if slice.len() == 0 {
            return ;
        }
        if self.is_empty() {
            let (min, max, len, new_vec) = USet::make_from_slice(slice);
            *self = USet { vec: new_vec, len, offset: min, min, max };
            return ;
        }
        let (lo, hi) = match minmax(slice) {
            Extremes::NoElements => (0, 0),
            Extremes::OneElement(only) => (only, only),
            Extremes::MinMax(lo, hi) => (lo, hi),
        };
        proof {
            assert forall|i: int| 0 <= i < slice@.len() implies lo <= #[trigger] slice@[i]
                && slice@[i] <= hi by {
                assert(slice@.to_set().contains(slice@[i]));
            }
        }
        let mut taken = USet::with_capacity(0);
        core::mem::swap(self, &mut taken);
        let USet { mut vec, mut len, mut offset, mut min, mut max } = taken;
        if lo >= min && hi <= max {
            len = raise_all(&mut vec, offset, slice, len);
            proof {
                assert forall|i: int| 0 <= i < vec@.len() && vec@[i] implies min - offset <= i
                    <= max - offset by {}
                assert(window_keys(vec@, offset).contains(min));
            }
        } else {
            let new_min = if lo < min {
                lo
            } else {
                min
            };
            let new_max = if hi > max {
                hi
            } else {
                max
            };
            let mut wider = rebase(&vec, offset, min, max, new_min, new_max);
            proof {
                lemma_window_rebased(vec@, offset, min, max, wider@, new_min);
            }
            len = raise_all(&mut wider, new_min, slice, len);
            proof {
                assert(window_keys(wider@, new_min).contains(new_min));
                assert(window_keys(wider@, new_min).contains(new_max));
            }
            vec = wider;
            min = new_min;
            offset = new_min;
            max = new_max;
        }
        *self = USet { vec, len, offset, min, max };
    }

    /// Whether `rule` selects `id`, given the two operands.
    fn selected(&self, other: &USet, rule: Rule, id: usize) -> (yes: bool)
        ensures
            yes == combined(rule, self@, other@).contains(id),
    {
        let first = self.contains(id);
        let second = other.contains(id);
        match rule {
            Rule::Either => first || second,
            Rule::OnlyFirst => first && !second,
            Rule::Both => first && second,
            Rule::ExactlyOne => first != second,
        }
    }

    /// The set of the keys that `rule` selects, all of which lie in `lo..=hi`,
    /// in a window without a flag to spare.
    fn combine(&self, other: &USet, rule: Rule, lo: usize, hi: usize) -> (s: Self)
        requires
            lo <= hi,
            forall|k: usize| combined(rule, self@, other@).contains(k) ==> lo <= k <= hi,
            !spans_all(combined(rule, self@, other@)),
        ensures
            s@ == combined(rule, self@, other@),
            fits_exactly(s@, s.spec_capacity()),
    {
        let ghost goal = combined(rule, self@, other@);
        let mut min = lo;
        while min < hi && !self.selected(other, rule, min)
            invariant
                lo <= min <= hi,
                goal == combined(rule, self@, other@),
                forall|k: usize| goal.contains(k) ==> min <= k <= hi,
            decreases hi - min,
        {
            min += 1;
        }
        if !self.selected(other, rule, min) {
            return USet::with_capacity(0);
        }
        let mut max = hi;
        while !self.selected(other, rule, max)
            invariant
                min <= max <= hi,
                goal == combined(rule, self@, other@),
                goal.contains(min),
                forall|k: usize| goal.contains(k) ==> min <= k <= max,
            decreases max - min,
        {
            max -= 1;
        }
        let width: usize = max - min + 1;
        let mut vec = vec![false; width];
        let mut len: usize = 0;
        let mut n: usize = 0;
        proof {
            lemma_window_all_false(vec@, min);
        }
        while n < width
            invariant
                n <= width,
                width == max - min + 1,
                vec@.len() == width,
                goal == combined(rule, self@, other@),
                forall|i: int| 0 <= i < n ==> vec@[i] == goal.contains((min + i) as usize),
                forall|i: int| n <= i < width ==> !vec@[i],
                window_keys(vec@, min).finite(),
                len == window_keys(vec@, min).len(),
                len <= n,
            decreases width - n,
        {
            if self.selected(other, rule, min + n) {
                proof {
                    lemma_window_raise(vec@, min, n as int);
                }
                vec.set(n, true);
                len = len + 1;
            }
            n += 1;
        }
        proof {
            assert(window_keys(vec@, min).contains(min));
        }
        let s = USet { vec, len, offset: min, min, max };
        proof {
            s.lemma_members();
        }
        s
    }

    /// The keys that are members of `self` or of `other`.
    pub fn union(&self, other: &Self) -> (s: Self)
        requires
            !spans_all(self@.union(other@)),
        ensures
            s@ == self@.union(other@),
            self@ == Set::<usize>::empty() ==> s.spec_capacity() == if other@ == Set::<
                usize,
            >::empty() {
                0
            } else {
                other.spec_capacity()
            },
            self@ != Set::<usize>::empty() && other@ == Set::<usize>::empty() ==> s.spec_capacity()
                == self.spec_capacity(),
            self@ != Set::<usize>::empty() && other@ != Set::<usize>::empty() ==> fits_exactly(
                s@,
                s.spec_capacity(),
            ),
    {
        proof {
            use_type_invariant(self);
            use_type_invariant(other);
        }
        if self.is_empty() {
            if other.is_empty() {
                USet::with_capacity(0)
            } else {
                other.clone()
            }
        } else if other.is_empty() {
            self.clone()
        } else {
            let min: usize = if self.min < other.min {
                self.min
            } else {
                other.min
            };
            let max: usize = if self.max > other.max {
                self.max
            } else {
                other.max
            };
            self.combine(other, Rule::Either, min, max)
        }
    }

    /// The members of `self` that are not members of `other`.
    pub fn difference(&self, other: &USet) -> (s: Self)
        ensures
            s@ == self@.difference(other@),
            fits_exactly(s@, s.spec_capacity()),
    {
        proof {
            use_type_invariant(self);
            self.lemma_members();
        }
        if self.is_empty() {
            USet::with_capacity(0)
        } else {
            self.combine(other, Rule::OnlyFirst, self.min, self.max)
        }
    }

    /// The keys that are members of both `self` and `other`.
    pub fn common_part(&self, other: &USet) -> (s: Self)
        ensures
            s@ == self@.intersect(other@),
            fits_exactly(s@, s.spec_capacity()),
    {
        proof {
            use_type_invariant(self);
            use_type_invariant(other);
            other.lemma_members();
        }
        if self.is_empty() || other.is_empty() {
            USet::with_capacity(0)
        } else {
            let lo: usize = if self.min > other.min {
                self.min
            } else {
                other.min
            };
            let hi: usize = if self.max < other.max {
                self.max
            } else {
                other.max
            };
            if lo > hi {
                USet::with_capacity(0)
            } else {
                self.combine(other, Rule::Both, lo, hi)
            }
        }
    }

    /// The keys that are members of exactly one of `self` and `other`.
    pub fn xor_set(&self, other: &USet) -> (s: Self)
        requires
            !spans_all(symmetric_difference(self@, other@)),
        ensures
            s@ == symmetric_difference(self@, other@),
            self@ == Set::<usize>::empty() ==> s.spec_capacity() == if other@ == Set::<
                usize,
            >::empty() {
                0
            } else {
                other.spec_capacity()
            },
            self@ != Set::<usize>::empty() && other@ == Set::<usize>::empty() ==> s.spec_capacity()
                == self.spec_capacity(),
            self@ != Set::<usize>::empty() && other@ != Set::<usize>::empty() ==> fits_exactly(
                s@,
                s.spec_capacity(),
            ),
    {
        proof {
            use_type_invariant(self);
            use_type_invariant(other);
        }
        if self.is_empty() && other.is_empty() {
            USet::with_capacity(0)
        } else if self.is_empty() {
            other.clone()
        } else if other.is_empty() {
            self.clone()
        } else {
            let lo: usize = if self.min < other.min {
                self.min
            } else {
                other.min
            };
            let hi: usize = if self.max > other.max {
                self.max
            } else {
                other.max
            };
            self.combine(other, Rule::ExactlyOne, lo, hi)
        }
    }

    /// The smallest member, if there is one.
    pub fn min(&self) -> (m: Option<usize>)
        ensures
            match m {
                Some(k) => is_least(self@, k),
                None => self@ == Set::<usize>::empty(),
            },
    {
        proof {
            use_type_invariant(self);
        }
        if self.is_empty() {
            None
        } else {
            Some(self.min)
        }
    }

    /// The largest member, if there is one.
    pub fn max(&self) -> (m: Option<usize>)
        ensures
            match m {
                Some(k) => is_greatest(self@, k),
                None => self@ == Set::<usize>::empty(),
            },
    {
        proof {
            use_type_invariant(self);
        }
        if self.is_empty() {
            None
        } else {
            Some(self.max)
        }
    }
}

/// A cursor over the members of a set that can be advanced from both ends.
/// Its abstract value is the ascending sequence of the members still to come.
pub struct USetIter<'a> {
    handle: &'a USet,
    index: usize,
    rindex: usize,
}

impl<'a> View for USetIter<'a> {
    type V = Seq<usize>;

    closed spec fn view(&self) -> Seq<usize> {
        raised_keys(
            self.handle.vec@,
            self.handle.offset,
            self.index as int,
            self.handle.vec@.len() - self.rindex,
        )
    }
}

impl<'a> USetIter<'a> {
    #[verifier::type_invariant]
    spec fn inv(self) -> bool {
        self.index + self.rindex <= self.handle.vec@.len()
    }

    /// Takes the smallest member still to come.
    pub fn next(&mut self) -> (item: Option<usize>)
        ensures
            old(self)@.len() == 0 ==> item.is_none() && final(self)@ == old(self)@,
            old(self)@.len() > 0 ==> item == Some(old(self)@.first()) && final(self)@ == old(
                self,
            )@.drop_first(),
    {
        proof {
            use_type_invariant(&*self);
            use_type_invariant(self.handle);
        }
        let end = self.handle.vec.len() - self.rindex;
        while self.index < end
            invariant
                self.handle == old(self).handle,
                self.rindex == old(self).rindex,
                self.index <= end,
                end == self.handle.vec@.len() - self.rindex,
                self.handle.inv(),
                self@ == old(self)@,
            decreases end - self.index,
        {
            let index = self.index;
            proof {
                lemma_raised_front(self.handle.vec@, self.handle.offset, index as int, end as int);
            }
            self.index += 1;
            if self.handle.vec[index] {
                return Some(index + self.handle.offset);
            }
        }
        None
    }

    /// Takes the largest member still to come.
    pub fn next_back(&mut self) -> (item: Option<usize>)
        ensures
            old(self)@.len() == 0 ==> item.is_none() && final(self)@ == old(self)@,
            old(self)@.len() > 0 ==> item == Some(old(self)@.last()) && final(self)@ == old(
                self,
            )@.drop_last(),
    {
        proof {
            use_type_invariant(&*self);
            use_type_invariant(self.handle);
        }
        let len = self.handle.vec.len();
        while self.rindex < len - self.index
            invariant
                self.handle == old(self).handle,
                self.index == old(self).index,
                self.index + self.rindex <= len,
                len == self.handle.vec@.len(),
                self.handle.inv(),
                self@ == old(self)@,
            decreases len - self.index - self.rindex,
        {
            let index = len - self.rindex - 1;
            self.rindex += 1;
            if self.handle.vec[index] {
                return Some(index + self.handle.offset);
            }
        }
        None
    }
}

impl PartialEqSpecImpl for USet {
    open spec fn obeys_eq_spec() -> bool {
        true
    }

    /// Two sets are equal when they have the same members, whatever their windows.
    open spec fn eq_spec(&self, other: &USet) -> bool {
        self@ == other@
    }
}

impl PartialEq for USet {
    fn eq(&self, other: &USet) -> (same: bool) {
        proof {
            use_type_invariant(self);
            use_type_invariant(other);
            self.lemma_members();
            other.lemma_members();
        }
        if self.len != other.len || self.min != other.min || self.max != other.max {
            return false;
        }
        if self.len == 0 {
            return true;
        }
        let width: usize = self.max - self.min + 1;
        let here: usize = self.min - self.offset;
        let there: usize = other.min - other.offset;
        let mut n: usize = 0;
        while n < width
            invariant
                self.inv(),
                other.inv(),
                self.len > 0,
                other.len > 0,
                self.min == other.min,
                self.max == other.max,
                width == self.max - self.min + 1,
                here == self.min - self.offset,
                there == other.min - other.offset,
                n <= width,
                forall|i: int|
                    0 <= i < n ==> #[trigger] self.vec@[here + i] == other.vec@[there + i],
            decreases width - n,
        {
            if self.vec[here + n] != other.vec[there + n] {
                proof {
                    let key = (self.min + n) as usize;
                    assert(self@.contains(key) != other@.contains(key));
                }
                return false;
            }
            n += 1;
        }
        proof {
            assert forall|k: usize| self@.contains(k) == other@.contains(k) by {
                if self.min <= k <= self.max {
                    assert(self.vec@[here + (k - self.min)] == other.vec@[there + (k - self.min)]);
                }
            }
            assert(self@ =~= other@);
        }
        true
    }
}

impl Eq for USet {

}

impl Clone for USet {
    fn clone(&self) -> (s: Self)
        ensures
            s@ == self@,
            s.spec_capacity() == self.spec_capacity(),
    {
        proof {
            use_type_invariant(self);
        }
        let vec = self.vec.clone();
        USet { vec, len: self.len, offset: self.offset, min: self.min, max: self.max }
    }
}

impl Default for USet {
    /// The empty set without any flags.
    fn default() -> (s: Self)
        ensures
            s@ == Set::<usize>::empty(),
            s.spec_capacity() == 0,
    {
        USet::with_capacity(0)
    }
}

} // verus!
