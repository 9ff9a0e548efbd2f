use vstd::prelude::*;

use crate::geometry::TouchPos;

verus! {

/// The set of active physical contacts, keyed by the stable per-touch
/// tracking id. Backed by fxhash's hash map, which Verus does not
/// read: the contents are named by `contacts_of`, and each operation
/// is trusted to change that name the way the std `HashMap` methods
/// that fxhash re-exports document.
#[verifier::external_body]
pub struct ContactMap {
    map: fxhash::FxHashMap<i32, TouchPos>,
}

/// What a `ContactMap` holds: the tracked position of each active
/// contact id.
pub uninterp spec fn contacts_of(m: ContactMap) -> Map<i32, TouchPos>;

/// The map holds nothing.
pub open spec fn no_contacts(m: ContactMap) -> bool {
    contacts_of(m) == Map::<i32, TouchPos>::empty()
}

impl ContactMap {
    /// Relies on FxHashMap::default: a fresh map holds nothing.
    #[verifier::external_body]
    pub fn new() -> (created: ContactMap)
        ensures
            no_contacts(created),
    {
        ContactMap { map: fxhash::FxHashMap::default() }
    }

    /// Relies on HashMap::insert (std, under fxhash's hasher): stores
    /// the position under the id, replacing any previous one.
    #[verifier::external_body]
    pub fn upsert(&mut self, id: i32, pos: TouchPos)
        ensures
            contacts_of(*final(self)) == contacts_of(*old(self)).insert(id, pos),
    {
        self.map.insert(id, pos);
    }

    /// Relies on HashMap::remove: drops the id's entry; an absent id
    /// leaves the map as it was.
    #[verifier::external_body]
    pub fn remove(&mut self, id: i32)
        ensures
            contacts_of(*final(self)) == contacts_of(*old(self)).remove(id),
    {
        self.map.remove(&id);
    }

    /// Relies on HashMap::values: a snapshot of the active positions,
    /// one per tracked id, in no stated order.
    #[verifier::external_body]
    pub fn positions(&self) -> (ps: Vec<TouchPos>)
        ensures
            ps@.len() == contacts_of(*self).dom().len(),
            ps@.to_set() == contacts_of(*self).values(),
    {
        self.map.values().cloned().collect()
    }
}

} // verus!
