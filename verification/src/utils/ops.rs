//! The algebra of sets and maps written with operators, and conversions
//! between the containers.
//!
//! `+` is the union, `-` the difference, `*` the common part and `^` the
//! symmetric difference. The operators take references and give a new
//! container. What an operator gives is stated by the members of the
//! result, as it is for the method it calls, not as a value.

use crate::utils::umap::{copies, UMap};
use crate::utils::uset::{symmetric_difference, USet};
use crate::utils::window::{ascending, lists, spans_all};
use core::ops::{Add, BitXor, Mul, Range, Sub};
use vstd::prelude::*;
use vstd::std_specs::convert::FromSpecImpl;
use vstd::std_specs::ops::{AddSpecImpl, BitXorSpecImpl, MulSpecImpl, SubSpecImpl};

verus! {

impl<'a> AddSpecImpl<&'a USet> for &'a USet {
    open spec fn obeys_add_spec() -> bool {
        false
    }

    open spec fn add_req(self, rhs: &'a USet) -> bool {
        !spans_all(self@.union(rhs@))
    }

    open spec fn add_spec(self, rhs: &'a USet) -> USet {
        arbitrary()
    }
}

impl<'a> Add<&'a USet> for &'a USet {
    type Output = USet;

    fn add(self, other: &'a USet) -> (s: USet)
        ensures
            s@ == self@.union(other@),
    {
        self.union(other)
    }
}

impl<'a> SubSpecImpl<&'a USet> for &'a USet {
    open spec fn obeys_sub_spec() -> bool {
        false
    }

    open spec fn sub_req(self, rhs: &'a USet) -> bool {
        true
    }

    open spec fn sub_spec(self, rhs: &'a USet) -> USet {
        arbitrary()
    }
}

impl<'a> Sub<&'a USet> for &'a USet {
    type Output = USet;

    fn sub(self, other: &'a USet) -> (s: USet)
        ensures
            s@ == self@.difference(other@),
    {
        self.difference(other)
    }
}

impl<'a> MulSpecImpl<&'a USet> for &'a USet {
    open spec fn obeys_mul_spec() -> bool {
        false
    }

    open spec fn mul_req(self, rhs: &'a USet) -> bool {
        true
    }

    open spec fn mul_spec(self, rhs: &'a USet) -> USet {
        arbitrary()
    }
}

impl<'a> Mul<&'a USet> for &'a USet {
    type Output = USet;

    fn mul(self, other: &'a USet) -> (s: USet)
        ensures
            s@ == self@.intersect(other@),
    {
        self.common_part(other)
    }
}

impl<'a> BitXorSpecImpl<&'a USet> for &'a USet {
    open spec fn obeys_bitxor_spec() -> bool {
        false
    }

    open spec fn bitxor_req(self, rhs: &'a USet) -> bool {
        !spans_all(symmetric_difference(self@, rhs@))
    }

    open spec fn bitxor_spec(self, rhs: &'a USet) -> USet {
        arbitrary()
    }
}

impl<'a> BitXor<&'a USet> for &'a USet {
    type Output = USet;

    fn bitxor(self, other: &'a USet) -> (s: USet)
        ensures
            s@ == symmetric_difference(self@, other@),
    {
        self.xor_set(other)
    }
}

impl FromSpecImpl<Range<usize>> for USet {
    open spec fn obeys_from_spec() -> bool {
        false
    }

    open spec fn from_spec(r: Range<usize>) -> USet {
        arbitrary()
    }
}

impl From<Range<usize>> for USet {
    /// The set of the keys `r.start..r.end`.
    fn from(r: Range<usize>) -> (s: USet)
        ensures
            s@ == Set::new(|k: usize| r.start <= k < r.end),
    {
        USet::from_range(r)
    }
}

impl<T> FromSpecImpl<UMap<T>> for USet {
    open spec fn obeys_from_spec() -> bool {
        false
    }

    open spec fn from_spec(map: UMap<T>) -> USet {
        arbitrary()
    }
}

impl<T> From<UMap<T>> for USet {
    /// The keys of the map.
    fn from(map: UMap<T>) -> (s: USet)
        ensures
            s@ == map@.dom(),
    {
        map.to_set()
    }
}

impl FromSpecImpl<USet> for Vec<usize> {
    open spec fn obeys_from_spec() -> bool {
        false
    }

    open spec fn from_spec(set: USet) -> Vec<usize> {
        arbitrary()
    }
}

impl From<USet> for Vec<usize> {
    /// The members in ascending order.
    fn from(set: USet) -> (keys: Vec<usize>)
        ensures
            lists(set@, keys@),
            keys@ == ascending(set@),
    {
        set.to_vec()
    }
}

impl<'a, T: Clone> AddSpecImpl<&'a UMap<T>> for &'a UMap<T> {
    open spec fn obeys_add_spec() -> bool {
        false
    }

    open spec fn add_req(self, rhs: &'a UMap<T>) -> bool {
        true
    }

    open spec fn add_spec(self, rhs: &'a UMap<T>) -> UMap<T> {
        arbitrary()
    }
}

impl<'a, T: Clone> Add<&'a UMap<T>> for &'a UMap<T> {
    type Output = UMap<T>;

    fn add(self, other: &'a UMap<T>) -> (m: UMap<T>)
        ensures
            copies(other@.union_prefer_right(self@), m@),
    {
        self.union(other)
    }
}

impl<'a, T: Clone> SubSpecImpl<&'a UMap<T>> for &'a UMap<T> {
    open spec fn obeys_sub_spec() -> bool {
        false
    }

    open spec fn sub_req(self, rhs: &'a UMap<T>) -> bool {
        true
    }

    open spec fn sub_spec(self, rhs: &'a UMap<T>) -> UMap<T> {
        arbitrary()
    }
}

impl<'a, T: Clone> Sub<&'a UMap<T>> for &'a UMap<T> {
    type Output = UMap<T>;

    /// The entries of the first map whose keys the second does not have.
    fn sub(self, other: &'a UMap<T>) -> (m: UMap<T>)
        ensures
            copies(self@.remove_keys(other@.dom()), m@),
    {
        self.substract(&other.to_set())
    }
}

impl<'a, T: Clone> MulSpecImpl<&'a UMap<T>> for &'a UMap<T> {
    open spec fn obeys_mul_spec() -> bool {
        false
    }

    open spec fn mul_req(self, rhs: &'a UMap<T>) -> bool {
        true
    }

    open spec fn mul_spec(self, rhs: &'a UMap<T>) -> UMap<T> {
        arbitrary()
    }
}

impl<'a, T: Clone> Mul<&'a UMap<T>> for &'a UMap<T> {
    type Output = UMap<T>;

    /// The entries of the first map whose keys the second has as well.
    fn mul(self, other: &'a UMap<T>) -> (m: UMap<T>)
        ensures
            copies(self@.restrict(other@.dom()), m@),
    {
        self.subset(&other.to_set())
    }
}

impl<'a, T: Clone> BitXorSpecImpl<&'a UMap<T>> for &'a UMap<T> {
    open spec fn obeys_bitxor_spec() -> bool {
        false
    }

    open spec fn bitxor_req(self, rhs: &'a UMap<T>) -> bool {
        true
    }

    open spec fn bitxor_spec(self, rhs: &'a UMap<T>) -> UMap<T> {
        arbitrary()
    }
}

impl<'a, T: Clone> BitXor<&'a UMap<T>> for &'a UMap<T> {
    type Output = UMap<T>;

    fn bitxor(self, other: &'a UMap<T>) -> (m: UMap<T>)
        ensures
            copies(
                other@.union_prefer_right(self@).remove_keys(self@.dom().intersect(other@.dom())),
                m@,
            ),
    {
        self.xor(other)
    }
}

} // verus!
