//! The table of references: which declaration each name node was resolved
//! to.
use vstd::prelude::*;
use std::collections::HashMap;
use crate::ast::Reference;
use crate::named_entity::EntityId;

verus! {

broadcast use vstd::std_specs::hash::group_hash_axioms;

/// For every slot, the declaration that the name node owning the slot is
/// bound to. A slot without an entry is unresolved.
pub struct References {
    pub table: HashMap<Reference, EntityId>,
}

impl View for References {
    type V = Map<Reference, EntityId>;

    open spec fn view(&self) -> Map<Reference, EntityId> {
        self.table@
    }
}

/// The table after a part of the tree was analyzed: the slots of that part
/// are bound as `binds` says, and unresolved where it says nothing; every
/// other slot is as it was.
pub open spec fn apply(
    refs: Map<Reference, EntityId>,
    slots: Set<Reference>,
    binds: Map<Reference, EntityId>,
) -> Map<Reference, EntityId> {
    refs.remove_keys(slots).union_prefer_right(binds.restrict(slots))
}

impl References {
    /// A table in which every slot is unresolved.
    pub fn new() -> (refs: References)
        ensures
            refs@ == Map::<Reference, EntityId>::empty(),
    {
        References { table: HashMap::new() }
    }

    /// Binds a slot to a declaration.
    pub fn set_unique_reference(&mut self, reference: Reference, ent: EntityId)
        ensures
            final(self)@ == old(self)@.insert(reference, ent),
    {
        self.table.insert(reference, ent);
    }

    /// Makes a slot unresolved.
    pub fn clear_reference(&mut self, reference: Reference)
        ensures
            final(self)@ == old(self)@.remove(reference),
    {
        self.table.remove(&reference);
    }

    /// The declaration that a slot is bound to.
    pub fn get(&self, reference: Reference) -> (ent: Option<EntityId>)
        ensures
            ent == (if self@.contains_key(reference) {
                Some(self@[reference])
            } else {
                None
            }),
    {
        match self.table.get(&reference) {
            Some(ent) => Some(*ent),
            None => None,
        }
    }
}

} // verus!
