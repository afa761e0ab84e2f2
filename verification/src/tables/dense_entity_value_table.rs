use crate::entity::{same_entity, Entity};
use crate::tables::entity_table::ValidEntity;
use crate::utils::secondary_entity_index::{SecondaryEntityIndex, SecondaryEntityIndexErrors};
use vstd::prelude::*;

verus! {

/// One value per entity, stored densely: `entities[k]` owns `values[k]`, and
/// `reverse` maps an entity's index to `k`.
pub struct DenseEntityValueTable<EntityType: Entity, ValueType: 'static> {
    reverse: SecondaryEntityIndex<EntityType, usize>,
    entities: Vec<EntityType>,
    values: Vec<ValueType>,
}

impl<EntityType: Entity, ValueType: 'static> DenseEntityValueTable<EntityType, ValueType> {
    /// The stored entities, in storage order.
    pub closed spec fn entities_spec(&self) -> Seq<EntityType> {
        self.entities@
    }

    /// The stored values, in storage order.
    pub closed spec fn values_spec(&self) -> Seq<ValueType> {
        self.values@
    }

    /// Entity index to the (entity, value) pair stored for it.
    pub closed spec fn view(&self) -> Map<nat, (EntityType, ValueType)> {
        Map::new(
            |i: nat| self.reverse@.contains_key(i),
            |i: nat| (self.entities@[self.reverse@[i] as int], self.values@[self.reverse@[i] as int]),
        )
    }

    /// Where the entry at entity index `i` is stored.
    pub closed spec fn position(&self, i: nat) -> int {
        self.reverse@[i] as int
    }

    pub closed spec fn wf(&self) -> bool {
        let r = self.reverse@;
        let es = self.entities@;
        &&& self.reverse.wf()
        &&& self.reverse.invalid() == usize::MAX
        &&& es.len() == self.values@.len()
        &&& forall|k: int|
            0 <= k < es.len() ==> #[trigger] r.contains_key(es[k].spec_idx()) && r[es[k].spec_idx()] == k
        &&& forall|i: nat| #[trigger] r.contains_key(i) ==> r[i] < es.len() && es[r[i] as int].spec_idx() == i
    }

    /// An empty table with room for `capacity` entries.
    pub fn with_capacity(capacity: usize) -> (r: Self)
        ensures
            r.wf(),
            r@ == Map::<nat, (EntityType, ValueType)>::empty(),
            r.entities_spec() == Seq::<EntityType>::empty(),
    {
        let r = Self {
            reverse: SecondaryEntityIndex::new(usize::MAX),
            entities: Vec::with_capacity(capacity),
            values: Vec::with_capacity(capacity),
        };
        assert(r@ =~= Map::<nat, (EntityType, ValueType)>::empty());
        r
    }

    /// Whether a value is stored at `entity`'s index (whatever its generation).
    pub fn contains(&self, entity: EntityType) -> (r: bool)
        requires
            self.wf(),
        ensures
            r == self@.contains_key(entity.spec_idx()),
    {
        self.reverse.get(entity).is_ok()
    }

    pub fn len(&self) -> (r: usize)
        requires
            self.wf(),
        ensures
            r == self.entities_spec().len(),
            r == self@.len(),
    {
        proof {
            self.lemma_len();
        }
        self.entities.len()
    }

    pub fn is_empty(&self) -> (r: bool)
        requires
            self.wf(),
        ensures
            r == (self@.len() == 0),
    {
        proof {
            self.lemma_len();
        }
        self.entities.len() == 0
    }

    /// The map has one key per stored entity.
    proof fn lemma_len(&self)
        requires
            self.wf(),
        ensures
            self@.dom().finite(),
            self@.len() == self.entities@.len(),
    {
        let es = self.entities@;
        let idxs = Seq::new(es.len(), |k: int| es[k].spec_idx());
        assert forall|a: int, b: int| 0 <= a < b < idxs.len() implies idxs[a] != idxs[b] by {
            assert(self.reverse@.contains_key(es[a].spec_idx()));
            assert(self.reverse@.contains_key(es[b].spec_idx()));
        }
        assert(idxs.no_duplicates());
        assert(self@.dom() =~= idxs.to_set()) by {
            assert forall|i: nat| self@.dom().contains(i) implies idxs.to_set().contains(i) by {
                assert(idxs[self.reverse@[i] as int] == i);
            }
        }
        idxs.unique_seq_to_set();
    }

    /// Stores `value` for `entity` at the end.
    ///
    /// Fails with `IndexAlreadyExists` where a value is stored at the entity's
    /// index.
    pub fn insert(&mut self, entity: ValidEntity<EntityType>, value: ValueType) -> (r: Result<
        (),
        SecondaryEntityIndexErrors<EntityType>,
    >)
        requires
            old(self).wf(),
            old(self).entities_spec().len() < usize::MAX,
        ensures
            final(self).wf(),
            r is Err <==> old(self)@.contains_key(entity.spec_raw().spec_idx()),
            r is Err ==> r == Err::<(), _>(SecondaryEntityIndexErrors::IndexAlreadyExists(entity.spec_raw()))
                && final(self)@ == old(self)@ && final(self).entities_spec() == old(self).entities_spec(),
            r is Ok ==> final(self)@ == old(self)@.insert(
                entity.spec_raw().spec_idx(),
                (entity.spec_raw(), value),
            ),
            r is Ok ==> final(self).entities_spec() == old(self).entities_spec().push(entity.spec_raw()),
            r is Ok ==> final(self).values_spec() == old(self).values_spec().push(value),
    {
        let raw = entity.raw();
        let n = self.entities.len();
        let location = self.reverse.insert_mut(raw)?;
        *location = n;
        self.entities.push(raw);
        self.values.push(value);
        proof {
            let i = raw.spec_idx();
            assert forall|j: nat| #[trigger] self.reverse@.contains_key(j) implies
                self.reverse@[j] < self.entities@.len() && self.entities@[self.reverse@[j] as int].spec_idx() == j by {
                if j != i {
                    assert(self.reverse.slot(j) == old(self).reverse.slot(j));
                    assert(old(self).reverse@.contains_key(j));
                }
            }
            assert forall|k: int| 0 <= k < self.entities@.len() implies
                #[trigger] self.reverse@.contains_key(self.entities@[k].spec_idx())
                && self.reverse@[self.entities@[k].spec_idx()] == k by {
                if k < n {
                    let j = self.entities@[k].spec_idx();
                    assert(old(self).reverse@.contains_key(j));
                    assert(j != i);
                    assert(self.reverse.slot(j) == old(self).reverse.slot(j));
                }
            }
            assert(self@ =~= old(self)@.insert(i, (raw, value))) by {
                assert forall|j: nat| #[trigger] self@.contains_key(j) == old(self)@.insert(i, (raw, value)).contains_key(j) by {
                    if j != i {
                        assert(self.reverse.slot(j) == old(self).reverse.slot(j));
                    }
                }
                assert forall|j: nat| #[trigger] self@.contains_key(j) implies self@[j] == old(self)@.insert(i, (raw, value))[j] by {
                    if j != i {
                        assert(self.reverse.slot(j) == old(self).reverse.slot(j));
                    }
                }
            }
        }
        Ok(())
    }
    /// Removes the value of `entity`; the last entry moves into its place.
    ///
    /// Fails with `IndexDoesNotExist` where no value is stored at the entity's
    /// index or the stored entity is of another generation.
    pub fn delete(&mut self, entity: EntityType) -> (r: Result<(), SecondaryEntityIndexErrors<EntityType>>)
        requires
            old(self).wf(),
        ensures
            final(self).wf(),
            r is Ok <==> (old(self)@.contains_key(entity.spec_idx()) && old(self)@[entity.spec_idx()].0 == entity),
            r is Err ==> r == Err::<(), _>(SecondaryEntityIndexErrors::IndexDoesNotExist(entity))
                && *final(self) == *old(self),
            r is Ok ==> final(self)@ == old(self)@.remove(entity.spec_idx()),
            r is Ok ==> {
                let k = old(self).position(entity.spec_idx());
                let es = old(self).entities_spec();
                let vs = old(self).values_spec();
                &&& final(self).entities_spec() == es.update(k, es.last()).drop_last()
                &&& final(self).values_spec() == vs.update(k, vs.last()).drop_last()
            },
    {
        let location = match self.reverse.get(entity) {
            Ok(l) => *l,
            Err(e) => { return Err(e); },
        };
        if !same_entity(self.entities[location], entity) {
            return Err(SecondaryEntityIndexErrors::IndexDoesNotExist(entity));
        }
        let ghost i = entity.spec_idx();
        let ghost es = self.entities@;
        let ghost n = es.len();
        match self.reverse.get_mut(entity) {
            Ok(l) => { *l = usize::MAX; },
            Err(_) => {},
        }
        let ghost mid_reverse = self.reverse;
        self.entities.swap_remove(location);
        self.values.swap_remove(location);
        if self.entities.len() > location {
            let moved_entity = self.entities[location];
            proof {
                let j = moved_entity.spec_idx();
                assert(moved_entity == es[n - 1]);
                assert(old(self).reverse@.contains_key(es[n - 1 as int].spec_idx()));
                assert(j != i);
                assert(mid_reverse.slot(j) == old(self).reverse.slot(j));
            }
            match self.reverse.get_mut(moved_entity) {
                Ok(moved) => { *moved = location; },
                Err(_) => {},
            }
        }
        proof {
            let j_moved = es[n - 1].spec_idx();
            assert forall|j: nat| j != i && j != j_moved implies #[trigger] self.reverse.slot(j) == old(self).reverse.slot(j) by {}
            assert(!self.reverse@.contains_key(i));
            assert forall|k: int| 0 <= k < self.entities@.len() implies
                #[trigger] self.reverse@.contains_key(self.entities@[k].spec_idx())
                && self.reverse@[self.entities@[k].spec_idx()] == k by {
                let j = self.entities@[k].spec_idx();
                if k != location {
                    assert(self.entities@[k] == es[k]);
                    assert(old(self).reverse@.contains_key(es[k].spec_idx()));
                    assert(j != i);
                    assert(j != j_moved) by {
                        assert(old(self).reverse@.contains_key(j_moved));
                    }
                }
            }
            assert forall|j: nat| #[trigger] self.reverse@.contains_key(j) implies
                self.reverse@[j] < self.entities@.len() && self.entities@[self.reverse@[j] as int].spec_idx() == j by {
                if j != j_moved {
                    assert(j != i);
                    assert(old(self).reverse@.contains_key(j));
                    let k = old(self).reverse@[j] as int;
                    assert(k != location as int);
                    assert(k != n - 1) by {
                        assert(old(self).reverse@.contains_key(j_moved));
                    }
                }
            }
            assert(self@ =~= old(self)@.remove(i)) by {
                assert forall|j: nat| #[trigger] self@.contains_key(j) == old(self)@.remove(i).contains_key(j) by {
                    if j != i && j != j_moved {
                        assert(self.reverse.slot(j) == old(self).reverse.slot(j));
                    }
                    if j == j_moved && j != i {
                        assert(old(self).reverse@.contains_key(j_moved));
                    }
                }
                assert forall|j: nat| #[trigger] self@.contains_key(j) implies self@[j] == old(self)@.remove(i)[j] by {
                    if j != i && j != j_moved {
                        assert(self.reverse.slot(j) == old(self).reverse.slot(j));
                        let k = old(self).reverse@[j] as int;
                        assert(k != location as int);
                        assert(k != n - 1) by {
                            assert(old(self).reverse@.contains_key(j_moved));
                        }
                    }
                }
            }
        }
        Ok(())
    }
}

/// Inserting a value for an entity whose index is free, and then deleting
/// that entity, succeeds and gives back the table's previous contents.
pub proof fn lemma_insert_then_delete_round_trip<EntityType: Entity, ValueType>(
    t0: DenseEntityValueTable<EntityType, ValueType>,
    t1: DenseEntityValueTable<EntityType, ValueType>,
    t2: DenseEntityValueTable<EntityType, ValueType>,
    e: EntityType,
    v: ValueType,
)
    requires
        !t0@.contains_key(e.spec_idx()),
        t1@ == t0@.insert(e.spec_idx(), (e, v)),
        t2@ == t1@.remove(e.spec_idx()),
    ensures
        t1@.contains_key(e.spec_idx()),
        t1@[e.spec_idx()] == (e, v),
        t2@ == t0@,
{
    assert(t0@.insert(e.spec_idx(), (e, v)).remove(e.spec_idx()) =~= t0@);
}

} // verus!
