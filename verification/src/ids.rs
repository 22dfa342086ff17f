//! A registry that gives every name an identifier of its own. A name is
//! registered as the name of a value or as the name of a cell type.

use std::collections::{HashMap, HashSet};
use std::hash::Hash;
use vstd::prelude::*;
use vstd::std_specs::hash::obeys_key_model;
use vstd::std_specs::iter::IteratorSpec;

verus! {

broadcast use vstd::std_specs::hash::group_hash_axioms;

/// The identifier of a value.
#[derive(Debug, Clone, Copy, Eq, PartialEq, Structural)]
pub struct ValueId(pub usize);

/// The identifier of a cell type.
#[derive(Debug, Clone, Copy, Eq, PartialEq, Structural)]
pub struct CellTypeId(pub usize);

/// The number that is never given out as an identifier by a new registry.
pub const NO_ID: usize = 0;

/// The number after `n`, or 0 after the largest.
pub open spec fn following(n: usize) -> usize {
    if n == usize::MAX {
        0
    } else {
        (n + 1) as usize
    }
}

/// The registry. Its names are the names of its values together with the
/// names of its cell types. The contracts hold for names whose hashing and
/// equality follow the model that hash tables are specified with.
pub struct Identifiers<S> {
    first_free: usize,
    names: HashSet<S>,
    values: HashMap<S, ValueId>,
    cell_types: HashMap<S, CellTypeId>,
}

impl<S> Identifiers<S> {
    #[verifier::type_invariant]
    spec fn inv(self) -> bool {
        &&& obeys_key_model::<S>()
        &&& self.names@ == self.values@.dom().union(self.cell_types@.dom())
    }

    /// The registered names.
    pub closed spec fn names(&self) -> Set<S> {
        self.names@
    }

    /// The identifiers of the names of values.
    pub closed spec fn values(&self) -> Map<S, ValueId> {
        self.values@
    }

    /// The identifiers of the names of cell types.
    pub closed spec fn cell_types(&self) -> Map<S, CellTypeId> {
        self.cell_types@
    }

    /// The number that the next new name gets.
    pub closed spec fn first_free(&self) -> usize {
        self.first_free
    }
}

impl<S: Eq + Hash + Copy> Identifiers<S> {
    /// A registry without names, whose first identifier is 1.
    pub fn default() -> (ids: Self)
        requires
            obeys_key_model::<S>(),
        ensures
            ids.names() == Set::<S>::empty(),
            ids.values() == Map::<S, ValueId>::empty(),
            ids.cell_types() == Map::<S, CellTypeId>::empty(),
            ids.first_free() == 1,
    {
        let names: HashSet<S> = HashSet::new();
        let values: HashMap<S, ValueId> = HashMap::new();
        let cell_types: HashMap<S, CellTypeId> = HashMap::new();
        assert(names@ =~= values@.dom().union(cell_types@.dom()));
        Identifiers { first_free: 1, names, values, cell_types }
    }

    /// Whether `name` is registered.
    pub fn contains(&self, name: S) -> (b: bool)
        ensures
            b == self.names().contains(name),
            b == (self.values().contains_key(name) || self.cell_types().contains_key(name)),
    {
        proof {
            use_type_invariant(self);
        }
        self.names.contains(&name)
    }

    /// The identifier of the value `name`, which is registered with the
    /// next free number if it is new.
    pub fn reg_value(&mut self, name: S) -> (id: ValueId)
        requires
            !old(self).cell_types().contains_key(name),
        ensures
            final(self).cell_types() == old(self).cell_types(),
            if old(self).values().contains_key(name) {
                &&& id == old(self).values()[name]
                &&& final(self).values() == old(self).values()
                &&& final(self).names() == old(self).names()
                &&& final(self).first_free() == old(self).first_free()
            } else {
                &&& id == ValueId(old(self).first_free())
                &&& final(self).values() == old(self).values().insert(name, id)
                &&& final(self).names() == old(self).names().insert(name)
                &&& final(self).first_free() == following(old(self).first_free())
            },
    {
        proof {
            use_type_invariant(&*self);
        }
        if self.contains(name) {
            *self.values.get(&name).unwrap()
        } else {
            let mut taken = Identifiers::default();
            core::mem::swap(self, &mut taken);
            let Identifiers { first_free, mut names, mut values, cell_types } = taken;
            names.insert(name);
            let id = ValueId(first_free);
            values.insert(name, id);
            proof {
                assert(names@ =~= values@.dom().union(cell_types@.dom()));
            }
            *self = Identifiers {
                first_free: first_free.wrapping_add(1),
                names,
                values,
                cell_types,
            };
            id
        }
    }

    /// Whether `id` is the identifier of a value.
    pub fn contains_value(&self, id: ValueId) -> (b: bool)
        ensures
            b == self.values().contains_value(id),
    {
        proof {
            use_type_invariant(self);
        }
        let ghost all = self.values.values().remaining().unref();
        let mut found = false;
        for v in it: self.values.values()
            invariant
                it.seq().unref() == all,
                found <==> exists|i: int| 0 <= i < it.index() && all[i] == id,
        {
            if *v == id {
                found = true;
            }
        }
        proof {
            if found {
            }
            if self.values@.contains_value(id) {
                assert(self.values@.values().contains(id));
            }
        }
        found
    }

    /// The identifier of the value `name`.
    pub fn get_value(&self, name: S) -> (id: Option<ValueId>)
        ensures
            id == if self.values().contains_key(name) {
                Some(self.values()[name])
            } else {
                None
            },
    {
        proof {
            use_type_invariant(self);
        }
        match self.values.get(&name) {
            Some(id) => Some(*id),
            None => None,
        }
    }

    /// The identifier of the cell type `name`, which is registered with the
    /// next free number if it is new.
    pub fn reg_cell_type(&mut self, name: S) -> (id: CellTypeId)
        requires
            !old(self).values().contains_key(name),
        ensures
            final(self).values() == old(self).values(),
            if old(self).cell_types().contains_key(name) {
                &&& id == old(self).cell_types()[name]
                &&& final(self).cell_types() == old(self).cell_types()
                &&& final(self).names() == old(self).names()
                &&& final(self).first_free() == old(self).first_free()
            } else {
                &&& id == CellTypeId(old(self).first_free())
                &&& final(self).cell_types() == old(self).cell_types().insert(name, id)
                &&& final(self).names() == old(self).names().insert(name)
                &&& final(self).first_free() == following(old(self).first_free())
            },
    {
        proof {
            use_type_invariant(&*self);
        }
        if self.contains(name) {
            *self.cell_types.get(&name).unwrap()
        } else {
            let mut taken = Identifiers::default();
            core::mem::swap(self, &mut taken);
            let Identifiers { first_free, mut names, values, mut cell_types } = taken;
            names.insert(name);
            let id = CellTypeId(first_free);
            cell_types.insert(name, id);
            proof {
                assert(names@ =~= values@.dom().union(cell_types@.dom()));
            }
            *self = Identifiers {
                first_free: first_free.wrapping_add(1),
                names,
                values,
                cell_types,
            };
            id
        }
    }

    /// Whether `id` is the identifier of a cell type.
    pub fn contains_cell_type(&self, id: CellTypeId) -> (b: bool)
        ensures
            b == self.cell_types().contains_value(id),
    {
        proof {
            use_type_invariant(self);
        }
        let ghost all = self.cell_types.values().remaining().unref();
        let mut found = false;
        for v in it: self.cell_types.values()
            invariant
                it.seq().unref() == all,
                found <==> exists|i: int| 0 <= i < it.index() && all[i] == id,
        {
            if *v == id {
                found = true;
            }
        }
        proof {
            if found {
            }
            if self.cell_types@.contains_value(id) {
                assert(self.cell_types@.values().contains(id));
            }
        }
        found
    }

    /// The identifier of the cell type `name`.
    pub fn get_cell_type(&self, name: S) -> (id: Option<CellTypeId>)
        ensures
            id == if self.cell_types().contains_key(name) {
                Some(self.cell_types()[name])
            } else {
                None
            },
    {
        proof {
            use_type_invariant(self);
        }
        match self.cell_types.get(&name) {
            Some(id) => Some(*id),
            None => None,
        }
    }

    /// The number of registered names.
    pub fn len(&self) -> (n: usize)
        ensures
            n == self.names().len(),
    {
        proof {
            use_type_invariant(self);
        }
        self.names.len()
    }

    pub fn is_empty(&self) -> (b: bool)
        ensures
            b == (self.names() == Set::<S>::empty()),
    {
        self.names.is_empty()
    }
}

} // verus!
