//! Identifiers of values that carry the type of the value.

use core::marker::PhantomData;
use vstd::prelude::*;

verus! {

/// The identifier of a value of type `T`.
#[derive(Debug, Eq, PartialEq, Hash)]
pub struct ValueId<T> {
    id: usize,
    _marker: PhantomData<T>,
}

impl<T> ValueId<T> {
    /// The number of the identifier.
    pub closed spec fn spec_id(&self) -> usize {
        self.id
    }

    pub fn new(id: usize) -> (value_id: ValueId<T>)
        ensures
            value_id.spec_id() == id,
    {
        ValueId::<T> { id, _marker: PhantomData }
    }

    /// The number of the identifier.
    pub fn id(&self) -> (id: usize)
        ensures
            id == self.spec_id(),
    {
        self.id
    }
}

} // verus!
