use crate::entity::EntityId;
use crate::extractable::TypeKey;
use vstd::prelude::*;

verus! {

/// What can go wrong when working with a world.
#[derive(Debug, Clone, PartialEq, Eq)]
pub enum WorldError {
    /// The entity is not in the world.
    EntityNotFound(EntityId),
    /// The entity exists, but its record has no component of this type.
    ComponentNotFound { entity_id: EntityId, component: TypeKey },
    /// The entity exists, but has no additional value of this type.
    AdditionalNotFound { entity_id: EntityId, component: TypeKey },
    /// The entity is indexed under an archetype that does not hold it; this
    /// means the world's own bookkeeping is broken.
    ArchetypeNotFound(EntityId),
    /// Some entities of a batch were removed and some were not.
    PartialRemoval { succeeded: Vec<EntityId>, failed: Vec<EntityId> },
}

} // verus!
