use vstd::prelude::*;

verus! {

/// Identifies one record for the lifetime of the world that issued it.
#[derive(Clone, Copy, Debug, PartialEq, Eq, Hash, PartialOrd, Ord, Structural)]
pub struct EntityId {
    id: u32,
}

impl EntityId {
    /// The raw number behind the identifier.
    pub closed spec fn raw(&self) -> u32 {
        self.id
    }

    pub fn new(id: u32) -> (r: Self)
        ensures
            r.raw() == id,
    {
        EntityId { id }
    }

    /// An identifier from a raw number of another id space.
    pub fn from_raw(id: u32) -> (r: Self)
        ensures
            r.raw() == id,
    {
        EntityId { id }
    }

    /// The raw number behind the identifier.
    pub fn id(&self) -> (r: u32)
        ensures
            r == self.raw(),
    {
        self.id
    }

    /// Identifiers are equal exactly when their raw numbers are.
    pub proof fn lemma_raw_injective(a: EntityId, b: EntityId)
        ensures
            a.raw() == b.raw() <==> a == b,
    {
    }
}

} // verus!
