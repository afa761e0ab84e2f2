use crate::entity::{same_entity, Entity};
use crate::tables::entity_table::ValidEntity;
use vstd::prelude::*;

verus! {

/// One value per entity, stored at the entity's index.
///
/// A slot that holds no value holds the null entity (index 0, generation 0).
pub struct VecEntityValueTable<EntityType: Entity, ValueType: 'static> {
    entities: Vec<EntityType>,
    values: Vec<Option<ValueType>>,
    count: usize,
}

impl<EntityType: Entity, ValueType: 'static> VecEntityValueTable<EntityType, ValueType> {
    /// The entity stored in each slot.
    pub closed spec fn slots(&self) -> Seq<EntityType> {
        self.entities@
    }

    /// The value stored in each slot.
    pub closed spec fn values_spec(&self) -> Seq<Option<ValueType>> {
        self.values@
    }

    /// The number of successful inserts less the number of successful deletes.
    pub closed spec fn count(&self) -> usize {
        self.count
    }

    pub closed spec fn wf(&self) -> bool {
        self.entities@.len() == self.values@.len()
    }

    /// Whether `slot` is the null entity.
    pub open spec fn is_null_slot(e: EntityType) -> bool {
        e.spec_idx() == 0 && e.spec_version() == 0
    }

    pub open spec fn contains_spec(&self, entity: EntityType) -> bool {
        entity.spec_idx() < self.slots().len() && self.slots()[entity.spec_idx() as int] == entity
    }

    /// An empty table with room for `capacity` slots.
    pub fn with_capacity(capacity: usize) -> (r: Self)
        ensures
            r.wf(),
            r.slots() == Seq::<EntityType>::empty(),
            r.values_spec() == Seq::<Option<ValueType>>::empty(),
            r.count() == 0,
    {
        Self { entities: Vec::with_capacity(capacity), values: Vec::with_capacity(capacity), count: 0 }
    }

    /// Whether `entity` (with its generation) is stored in its slot.
    pub fn contains(&self, entity: EntityType) -> (r: bool)
        requires
            self.wf(),
        ensures
            r == self.contains_spec(entity),
    {
        self.entities.len() > entity.idx() && same_entity(self.entities[entity.idx()], entity)
    }

    pub fn len(&self) -> (r: usize)
        ensures
            r == self.count(),
    {
        self.count
    }

    pub fn is_empty(&self) -> (r: bool)
        ensures
            r == (self.count() == 0),
    {
        self.count == 0
    }

    /// Stores `value` at the entity's slot, first growing the slots with null
    /// entities and empty values up to that index.
    ///
    /// Fails with `Err(())` where the slot already holds this very entity.
    pub fn insert(&mut self, entity: ValidEntity<EntityType>, value: ValueType) -> (r: Result<(), ()>)
        requires
            old(self).wf(),
            old(self).count() < usize::MAX,
            entity.spec_raw().spec_idx() < usize::MAX,
        ensures
            final(self).wf(),
            ({
                let e = entity.spec_raw();
                let i = e.spec_idx();
                let n = old(self).slots().len();
                let m = if n <= i { i + 1 } else { n };
                &&& final(self).slots().len() == m
                &&& forall|j: int| 0 <= j < n && j != i ==> #[trigger] final(self).slots()[j] == old(self).slots()[j]
                &&& forall|j: int| 0 <= j < n && j != i ==> #[trigger] final(self).values_spec()[j] == old(self).values_spec()[j]
                &&& forall|j: int| n <= j < m && j != i ==> Self::is_null_slot(#[trigger] final(self).slots()[j])
                &&& forall|j: int| n <= j < m && j != i ==> #[trigger] final(self).values_spec()[j] is None
                &&& (r is Err <==> (old(self).contains_spec(e) || (n <= i && Self::is_null_slot(e))))
                &&& final(self).slots()[i as int] == e
                &&& r is Err ==> (i < n ==> final(self).values_spec()[i as int] == old(self).values_spec()[i as int])
                    && final(self).count() == old(self).count()
                &&& r is Ok ==> final(self).values_spec()[i as int] == Some(value)
                    && final(self).count() == old(self).count() + 1
            }),
    {
        let entity = entity.raw();
        let idx = entity.idx();
        let ghost n = self.entities@.len();
        if self.entities.len() <= idx {
            proof {
                EntityType::lemma_bounds();
                EntityType::lemma_fields(entity, entity);
            }
            while self.entities.len() < idx + 1
                invariant
                    self.wf(),
                    n <= self.entities@.len() <= idx + 1,
                    idx < usize::MAX,
                    idx < EntityType::idx_bound(),
                    forall|j: int| 0 <= j < n ==> #[trigger] self.entities@[j] == old(self).entities@[j],
                    forall|j: int| 0 <= j < n ==> #[trigger] self.values@[j] == old(self).values@[j],
                    forall|j: int| n <= j < self.entities@.len() ==> Self::is_null_slot(#[trigger] self.entities@[j]),
                    forall|j: int| n <= j < self.values@.len() ==> #[trigger] self.values@[j] is None,
                    self.count == old(self).count,
                decreases idx + 1 - self.entities@.len(),
            {
                self.entities.push(EntityType::new(0));
                self.values.push(None);
            }
        }
        proof {
            EntityType::lemma_fields(entity, self.entities@[idx as int]);
        }
        if same_entity(self.entities[idx], entity) {
            return Err(());
        }
        self.entities[idx] = entity;
        self.values[idx] = Some(value);
        self.count = self.count + 1;
        Ok(())
    }

    /// Empties the slot of `entity`: it gets the null entity and no value.
    ///
    /// Fails with `Err(())` where the slot does not hold this very entity.
    pub fn delete(&mut self, entity: EntityType) -> (r: Result<(), ()>)
        requires
            old(self).wf(),
            old(self).contains_spec(entity) ==> old(self).count() > 0,
        ensures
            final(self).wf(),
            r is Err <==> !old(self).contains_spec(entity),
            r is Err ==> *final(self) == *old(self),
            r is Ok ==> {
                let i = entity.spec_idx() as int;
                &&& final(self).slots().len() == old(self).slots().len()
                &&& Self::is_null_slot(final(self).slots()[i])
                &&& final(self).slots() == old(self).slots().update(i, final(self).slots()[i])
                &&& final(self).values_spec() == old(self).values_spec().update(i, None)
                &&& final(self).count() == old(self).count() - 1
            },
    {
        if self.entities.len() <= entity.idx() || !same_entity(self.entities[entity.idx()], entity) {
            return Err(());
        }
        proof {
            EntityType::lemma_bounds();
        }
        let idx = entity.idx();
        self.entities[idx] = EntityType::new(0);
        self.values[idx] = None;
        self.count = self.count - 1;
        Ok(())
    }
}

} // verus!
