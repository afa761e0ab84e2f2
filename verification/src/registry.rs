use crate::entity::Entity;
use vstd::prelude::*;

verus! {

pub struct Registry<EntityType> {
    _e: EntityType,
}

impl<EntityType: Entity> Registry<EntityType> {
    pub closed spec fn spec_entity(&self) -> EntityType {
        self._e
    }

    /// A registry that starts at the null entity.
    pub fn new() -> (r: Registry<EntityType>)
        ensures
            r.spec_entity().spec_idx() == 0,
            r.spec_entity().spec_version() == 0,
    {
        proof {
            EntityType::lemma_bounds();
        }
        Registry { _e: EntityType::new(0) }
    }
}

} // verus!
