use crate::entity::{same_entity, Entity};
use crate::storages::sparse_typed_paged_map::slice_contains;
use crate::tables::entity_table::ValidEntity;
use crate::utils::secondary_entity_index::{SecondaryEntityIndex, SecondaryEntityIndexErrors};
use std::any::TypeId;
use std::cell::BorrowMutError;
use vstd::prelude::*;
use vstd::std_specs::cmp::PartialEqSpecImpl;

verus! {

#[verifier::external_type_specification]
#[verifier::external_body]
pub struct ExTypeId(TypeId);

#[verifier::external_type_specification]
#[verifier::external_body]
pub struct ExBorrowMutError(BorrowMutError);

#[derive(Debug)]
pub enum DenseEntityDynamicPagedMultiValueTableErrors<EntityType: Entity> {
    SecondaryIndexError(SecondaryEntityIndexErrors<EntityType>),
    BorrowMutError(BorrowMutError),
    StorageDoesNotExistInGroup(usize, TypeId),
    StorageAlreadyExistsInGroup(usize, TypeId),
    EntityAlreadyExistsInStorage,
    ComponentStorageDoesNotExist(&'static str),
    EntityDoesNotExistInStorage(EntityType, &'static str),
    EntityGenerationMismatch(EntityType, EntityType),
    IteratorsNotAllSameLength,
}

impl<EntityType: Entity> From<SecondaryEntityIndexErrors<EntityType>> for DenseEntityDynamicPagedMultiValueTableErrors<EntityType> {
    fn from(source: SecondaryEntityIndexErrors<EntityType>) -> (r: Self) {
        DenseEntityDynamicPagedMultiValueTableErrors::SecondaryIndexError(source)
    }
}

impl<EntityType: Entity> vstd::std_specs::convert::FromSpecImpl<SecondaryEntityIndexErrors<EntityType>> for DenseEntityDynamicPagedMultiValueTableErrors<EntityType> {
    open spec fn obeys_from_spec() -> bool {
        true
    }

    open spec fn from_spec(v: SecondaryEntityIndexErrors<EntityType>) -> Self {
        DenseEntityDynamicPagedMultiValueTableErrors::SecondaryIndexError(v)
    }
}

impl<EntityType: Entity> From<BorrowMutError> for DenseEntityDynamicPagedMultiValueTableErrors<EntityType> {
    fn from(source: BorrowMutError) -> (r: Self) {
        DenseEntityDynamicPagedMultiValueTableErrors::BorrowMutError(source)
    }
}

impl<EntityType: Entity> vstd::std_specs::convert::FromSpecImpl<BorrowMutError> for DenseEntityDynamicPagedMultiValueTableErrors<EntityType> {
    open spec fn obeys_from_spec() -> bool {
        true
    }

    open spec fn from_spec(v: BorrowMutError) -> Self {
        DenseEntityDynamicPagedMultiValueTableErrors::BorrowMutError(v)
    }
}

/// Where an entity's values live: a group, and a position inside it.
#[derive(Clone, Copy, Debug)]
pub struct ComponentLocations {
    pub group: usize,
    pub index: usize,
}

impl PartialEq for ComponentLocations {
    fn eq(&self, other: &Self) -> (r: bool) {
        self.group == other.group && self.index == other.index
    }
}

impl PartialEqSpecImpl for ComponentLocations {
    open spec fn obeys_eq_spec() -> bool {
        true
    }

    open spec fn eq_spec(&self, other: &Self) -> bool {
        self.group == other.group && self.index == other.index
    }
}

impl ComponentLocations {
    /// The location that marks "nowhere".
    pub open spec fn spec_invalid() -> Self {
        ComponentLocations { group: usize::MAX, index: usize::MAX }
    }

    pub fn invalid() -> (r: Self)
        ensures
            r == Self::spec_invalid(),
    {
        ComponentLocations { group: usize::MAX, index: usize::MAX }
    }

    pub proof fn lemma_concrete_eq()
        ensures
            vstd::laws_eq::obeys_concrete_eq::<Self>(),
    {
        reveal(vstd::laws_eq::obeys_concrete_eq);
    }
}

/// The entity bookkeeping of a table whose entities are sorted into groups:
/// `entities[g]` lists the entities of group `g` in storage order, and `reverse`
/// maps an entity's index to its group and position. Each typed value storage
/// of the table keeps, per group, one value per position.
pub struct DenseEntityDynamicPagedMultiValueTable<EntityType: Entity> {
    reverse: SecondaryEntityIndex<EntityType, ComponentLocations>,
    entities: Vec<Vec<EntityType>>,
}

impl<EntityType: Entity> DenseEntityDynamicPagedMultiValueTable<EntityType> {
    /// The entities of each group, in storage order.
    pub closed spec fn groups(&self) -> Seq<Seq<EntityType>> {
        Seq::new(self.entities@.len(), |g: int| self.entities@[g]@)
    }

    /// Entity index to the location of its values.
    pub closed spec fn locations(&self) -> Map<nat, ComponentLocations> {
        self.reverse@
    }

    /// The entity stored at entity index `i`.
    pub open spec fn stored(&self, i: nat) -> EntityType {
        let l = self.locations()[i];
        self.groups()[l.group as int][l.index as int]
    }

    /// Whether `entity` itself (index and generation) is stored.
    pub open spec fn contains_spec(&self, entity: EntityType) -> bool {
        self.locations().contains_key(entity.spec_idx()) && self.stored(entity.spec_idx()) == entity
    }

    pub closed spec fn wf(&self) -> bool {
        let r = self.reverse@;
        let gs = self.groups();
        &&& self.reverse.wf()
        &&& self.reverse.invalid() == ComponentLocations::spec_invalid()
        &&& forall|g: int, k: int|
            0 <= g < gs.len() && 0 <= k < gs[g].len() ==> #[trigger] r.contains_key(gs[g][k].spec_idx())
                && r[gs[g][k].spec_idx()].group == g && r[gs[g][k].spec_idx()].index == k
        &&& forall|i: nat| #[trigger] r.contains_key(i) ==> {
            let l = r[i];
            &&& l.group < gs.len()
            &&& l.index < gs[l.group as int].len()
            &&& gs[l.group as int][l.index as int].spec_idx() == i
        }
    }

    /// An empty table with no group.
    pub fn with_capacity(capacity: usize) -> (r: Self)
        ensures
            r.wf(),
            r.groups() == Seq::<Seq<EntityType>>::empty(),
            r.locations() == Map::<nat, ComponentLocations>::empty(),
    {
        proof {
            ComponentLocations::lemma_concrete_eq();
        }
        let r = Self { reverse: SecondaryEntityIndex::new(ComponentLocations::invalid()), entities: Vec::with_capacity(capacity) };
        assert(r.groups() =~= Seq::<Seq<EntityType>>::empty());
        r
    }

    pub fn group_count(&self) -> (r: usize)
        ensures
            r == self.groups().len(),
    {
        self.entities.len()
    }

    /// The location of `entity`.
    ///
    /// Fails with `SecondaryIndexError(IndexDoesNotExist)` where nothing is
    /// stored at its index, and with `EntityGenerationMismatch(entity, stored)`
    /// where another generation is stored there.
    pub fn get_valid_location(&self, entity: EntityType) -> (r: Result<
        ComponentLocations,
        DenseEntityDynamicPagedMultiValueTableErrors<EntityType>,
    >)
        requires
            self.wf(),
        ensures
            r is Ok <==> self.contains_spec(entity),
            r is Ok ==> r->Ok_0 == self.locations()[entity.spec_idx()],
            !self.locations().contains_key(entity.spec_idx()) ==> r == Err::<ComponentLocations, _>(
                DenseEntityDynamicPagedMultiValueTableErrors::SecondaryIndexError(
                    SecondaryEntityIndexErrors::IndexDoesNotExist(entity),
                ),
            ),
            self.locations().contains_key(entity.spec_idx()) && !self.contains_spec(entity) ==> r
                == Err::<ComponentLocations, _>(
                DenseEntityDynamicPagedMultiValueTableErrors::EntityGenerationMismatch(
                    entity,
                    self.stored(entity.spec_idx()),
                ),
            ),
    {
        let location = match self.reverse.get(entity) {
            Ok(l) => *l,
            Err(e) => {
                return Err(DenseEntityDynamicPagedMultiValueTableErrors::SecondaryIndexError(e));
            },
        };
        let existing = self.entities[location.group][location.index];
        if !same_entity(existing, entity) {
            return Err(
                DenseEntityDynamicPagedMultiValueTableErrors::EntityGenerationMismatch(
                    entity,
                    existing,
                ),
            );
        }
        Ok(location)
    }

    /// Grows the list of groups to `groups` groups; the new groups are empty.
    pub fn ensure_group_count(&mut self, groups: usize)
        requires
            old(self).wf(),
            groups >= old(self).groups().len(),
        ensures
            final(self).wf(),
            final(self).groups().len() == groups,
            forall|g: int| 0 <= g < old(self).groups().len() ==> #[trigger] final(self).groups()[g] == old(self).groups()[g],
            forall|g: int| old(self).groups().len() <= g < groups ==> #[trigger] final(self).groups()[g] == Seq::<EntityType>::empty(),
            final(self).locations() == old(self).locations(),
    {
        while self.entities.len() < groups
            invariant
                self.wf(),
                old(self).groups().len() <= self.groups().len() <= groups,
                forall|g: int| 0 <= g < old(self).groups().len() ==> #[trigger] self.groups()[g] == old(self).groups()[g],
                forall|g: int| old(self).groups().len() <= g < self.groups().len() ==> #[trigger] self.groups()[g] == Seq::<EntityType>::empty(),
                self.locations() == old(self).locations(),
            decreases groups - self.entities@.len(),
        {
            let ghost prev = self.groups();
            self.entities.push(Vec::new());
            proof {
                assert forall|g: int| 0 <= g < prev.len() implies #[trigger] self.groups()[g] == prev[g] by {}
            }
        }
    }

    /// Records `entity` at the end of group `group`.
    ///
    /// Fails with `SecondaryIndexError(IndexAlreadyExists)` where something is
    /// stored at its index.
    #[verifier::spinoff_prover]
    pub fn insert_valid_location_mut(&mut self, entity: EntityType, group: usize) -> (r: Result<
        ComponentLocations,
        DenseEntityDynamicPagedMultiValueTableErrors<EntityType>,
    >)
        requires
            old(self).wf(),
            group < old(self).groups().len(),
        ensures
            final(self).wf(),
            r is Err <==> old(self).locations().contains_key(entity.spec_idx()),
            r is Err ==> r == Err::<ComponentLocations, _>(
                DenseEntityDynamicPagedMultiValueTableErrors::SecondaryIndexError(
                    SecondaryEntityIndexErrors::IndexAlreadyExists(entity),
                ),
            ) && final(self).groups() == old(self).groups() && final(self).locations() == old(self).locations(),
            r is Ok ==> {
                let l = ComponentLocations { group, index: old(self).groups()[group as int].len() as usize };
                &&& r->Ok_0 == l
                &&& final(self).groups() == old(self).groups().update(
                    group as int,
                    old(self).groups()[group as int].push(entity),
                )
                &&& final(self).locations() == old(self).locations().insert(entity.spec_idx(), l)
                &&& final(self).contains_spec(entity)
                &&& forall|e: EntityType|
                    e.spec_idx() != entity.spec_idx() ==> (#[trigger] final(self).contains_spec(e) == old(self).contains_spec(e))
            },
    {
        let index = self.entities[group].len();
        let group_count = self.entities.len();
        let ghost gs = self.groups();
        assert(group < group_count);
        match self.reverse.insert_mut(entity) {
            Ok(location) => {
                *location = ComponentLocations { group, index };
            },
            Err(e) => {
                assert(self.groups() =~= gs);
                assert(self.wf());
                return Err(DenseEntityDynamicPagedMultiValueTableErrors::SecondaryIndexError(e));
            },
        }
        let ghost mid = self.reverse;
        self.entities[group].push(entity);
        let l = ComponentLocations { group, index };
        proof {
            let i = entity.spec_idx();
            let ngs = gs.update(group as int, gs[group as int].push(entity));
            assert(self.groups() =~= ngs);
            assert(self.reverse.slot(i) == l);
            assert(l != ComponentLocations::spec_invalid());
            assert(self.reverse@.contains_key(i));
            assert forall|j: nat| j != i implies #[trigger] self.reverse.slot(j) == old(self).reverse.slot(j) by {}
            assert forall|g: int, k: int|
                0 <= g < ngs.len() && 0 <= k < ngs[g].len() implies #[trigger] self.reverse@.contains_key(ngs[g][k].spec_idx())
                    && self.reverse@[ngs[g][k].spec_idx()].group == g && self.reverse@[ngs[g][k].spec_idx()].index == k by {
                if !(g == group && k == index) {
                    assert(ngs[g][k] == gs[g][k]);
                    assert(old(self).reverse@.contains_key(gs[g][k].spec_idx()));
                    assert(gs[g][k].spec_idx() != i);
                    assert(self.reverse.slot(gs[g][k].spec_idx()) == old(self).reverse.slot(gs[g][k].spec_idx()));
                } else {
                    assert(ngs[g][k] == entity);
                }
            }
            assert forall|j: nat| #[trigger] self.reverse@.contains_key(j) implies {
                let l = self.reverse@[j];
                &&& l.group < ngs.len()
                &&& l.index < ngs[l.group as int].len()
                &&& ngs[l.group as int][l.index as int].spec_idx() == j
            } by {
                if j != i {
                    assert(old(self).reverse@.contains_key(j));
                }
            }
            assert(self.reverse@ =~= old(self).reverse@.insert(i, l));
            assert(self.wf());
        }
        Ok(l)
    }
    /// Forgets `entity`: the last entity of its group moves into its position.
    /// Returns where it was.
    ///
    /// Fails as `get_valid_location` does, without any change.
    pub fn remove_valid_location(&mut self, entity: EntityType) -> (r: Result<
        ComponentLocations,
        DenseEntityDynamicPagedMultiValueTableErrors<EntityType>,
    >)
        requires
            old(self).wf(),
        ensures
            final(self).wf(),
            r is Ok <==> old(self).contains_spec(entity),
            !old(self).locations().contains_key(entity.spec_idx()) ==> r == Err::<ComponentLocations, _>(
                DenseEntityDynamicPagedMultiValueTableErrors::SecondaryIndexError(
                    SecondaryEntityIndexErrors::IndexDoesNotExist(entity),
                ),
            ),
            old(self).locations().contains_key(entity.spec_idx()) && !old(self).contains_spec(entity) ==> r
                == Err::<ComponentLocations, _>(
                DenseEntityDynamicPagedMultiValueTableErrors::EntityGenerationMismatch(
                    entity,
                    old(self).stored(entity.spec_idx()),
                ),
            ),
            r is Err ==> final(self).groups() == old(self).groups() && final(self).locations() == old(self).locations(),
            r is Ok ==> {
                let l = r->Ok_0;
                let g = l.group as int;
                let k = l.index as int;
                let s = old(self).groups()[g];
                &&& l == old(self).locations()[entity.spec_idx()]
                &&& final(self).groups() == old(self).groups().update(g, swap_removed(s, k))
                &&& final(self).locations() == if k < s.len() - 1 {
                    old(self).locations().remove(entity.spec_idx()).insert(s.last().spec_idx(), l)
                } else {
                    old(self).locations().remove(entity.spec_idx())
                }
                &&& !final(self).locations().contains_key(entity.spec_idx())
                &&& forall|e: EntityType|
                    e.spec_idx() != entity.spec_idx() ==> (#[trigger] final(self).contains_spec(e) == old(self).contains_spec(e))
            },
    {
        let loc = match self.get_valid_location(entity) {
            Ok(l) => l,
            Err(e) => { return Err(e); },
        };
        let ghost gs = self.groups();
        let ghost i = entity.spec_idx();
        let ghost g = loc.group as int;
        let ghost k = loc.index as int;
        let ghost s = gs[g];
        let ghost j_moved = s.last().spec_idx();
        proof {
            assert(self.reverse@.contains_key(i));
            assert(self.reverse@[i] == loc);
            assert(s.last() == gs[g][s.len() - 1]);
            assert(self.reverse@.contains_key(gs[g][s.len() - 1].spec_idx()));
            assert(self.reverse@[j_moved].index == s.len() - 1);
            assert(j_moved == i <==> k == s.len() - 1);
        }
        match self.reverse.get_mut(entity) {
            Ok(l) => { *l = ComponentLocations::invalid(); },
            Err(_) => {},
        }
        let ghost mid = self.reverse;
        self.entities[loc.group].swap_remove(loc.index);
        let ghost ngs = gs.update(g, swap_removed(s, k));
        assert(self.groups() =~= ngs);
        if self.entities[loc.group].len() > loc.index {
            let replacement_entity = self.entities[loc.group][loc.index];
            assert(replacement_entity == s.last());
            match self.reverse.get_mut(replacement_entity) {
                Ok(l) => { l.index = loc.index; },
                Err(_) => {},
            }
        }
        proof {
            let nl = if k < s.len() - 1 {
                old(self).reverse@.remove(i).insert(j_moved, loc)
            } else {
                old(self).reverse@.remove(i)
            };
            assert forall|j: nat| j != i && j != j_moved implies #[trigger] self.reverse.slot(j) == old(self).reverse.slot(j) by {}
            assert(!self.reverse@.contains_key(i));
            if k < s.len() - 1 {
                assert(self.reverse.slot(j_moved) == loc);
            }
            assert(self.reverse@ =~= nl) by {
                assert forall|j: nat| #[trigger] self.reverse@.contains_key(j) == nl.contains_key(j) by {
                    if j == j_moved && k < s.len() - 1 {
                        assert(loc != ComponentLocations::spec_invalid());
                    }
                }
            }
            assert forall|g2: int, k2: int|
                0 <= g2 < ngs.len() && 0 <= k2 < ngs[g2].len() implies #[trigger] self.reverse@.contains_key(ngs[g2][k2].spec_idx())
                    && self.reverse@[ngs[g2][k2].spec_idx()].group == g2 && self.reverse@[ngs[g2][k2].spec_idx()].index == k2 by {
                if g2 == g && k2 == k {
                    assert(ngs[g2][k2] == s.last());
                } else {
                    assert(ngs[g2][k2] == gs[g2][k2]);
                    assert(old(self).reverse@.contains_key(gs[g2][k2].spec_idx()));
                    let l2 = old(self).reverse@[gs[g2][k2].spec_idx()];
                    assert(l2.group == g2 && l2.index == k2);
                    assert(gs[g2][k2].spec_idx() != i);
                    assert(gs[g2][k2].spec_idx() != j_moved);
                }
            }
            assert forall|j: nat| #[trigger] self.reverse@.contains_key(j) implies {
                let l = self.reverse@[j];
                &&& l.group < ngs.len()
                &&& l.index < ngs[l.group as int].len()
                &&& ngs[l.group as int][l.index as int].spec_idx() == j
            } by {
                if j != j_moved {
                    assert(old(self).reverse@.contains_key(j));
                    let ol = old(self).reverse@[j];
                    assert(!(ol.group == g && ol.index == k));
                    assert(!(ol.group == g && ol.index == s.len() - 1));
                }
            }
        }
        Ok(loc)
    }

    /// Moves `entity` to the end of group `new_group`; the last entity of its
    /// old group moves into its old position. Returns its new location.
    ///
    /// Fails as `get_valid_location` does, without any change.
    pub fn move_valid_location(&mut self, entity: EntityType, new_group: usize) -> (r: Result<
        ComponentLocations,
        DenseEntityDynamicPagedMultiValueTableErrors<EntityType>,
    >)
        requires
            old(self).wf(),
            new_group < old(self).groups().len(),
        ensures
            final(self).wf(),
            r is Ok <==> old(self).contains_spec(entity),
            r is Err ==> final(self).groups() == old(self).groups() && final(self).locations() == old(self).locations(),
            r is Ok ==> {
                let i = entity.spec_idx();
                let l = old(self).locations()[i];
                let g = l.group as int;
                let k = l.index as int;
                let s = old(self).groups()[g];
                let mid = old(self).groups().update(g, swap_removed(s, k));
                let ml = if k < s.len() - 1 {
                    old(self).locations().remove(i).insert(s.last().spec_idx(), l)
                } else {
                    old(self).locations().remove(i)
                };
                let nl = ComponentLocations { group: new_group, index: mid[new_group as int].len() as usize };
                &&& r->Ok_0 == nl
                &&& final(self).groups() == mid.update(new_group as int, mid[new_group as int].push(entity))
                &&& final(self).locations() == ml.insert(i, nl)
                &&& final(self).contains_spec(entity)
                &&& forall|e: EntityType|
                    e.spec_idx() != i ==> (#[trigger] final(self).contains_spec(e) == old(self).contains_spec(e))
            },
    {
        let _old_location = match self.remove_valid_location(entity) {
            Ok(l) => l,
            Err(e) => { return Err(e); },
        };
        let r = self.insert_valid_location_mut(entity, new_group);
        proof {
            assert(r is Ok);
            let l = r->Ok_0;
            assert(self.reverse@.contains_key(entity.spec_idx()));
            assert(self.groups()[new_group as int][l.index as int] == entity);
        }
        r
    }
}

/// The values of one component type: one list per group, kept parallel to the
/// group's entity list.
pub struct DensePagedData<ValueType: 'static> {
    idx: usize,
    data: Vec<Vec<ValueType>>,
}

impl<ValueType: 'static> DensePagedData<ValueType> {
    /// The values of each group.
    pub closed spec fn view(&self) -> Seq<Seq<ValueType>> {
        Seq::new(self.data@.len(), |g: int| self.data@[g]@)
    }

    /// The position of this storage among the table's storages.
    pub closed spec fn spec_idx(&self) -> usize {
        self.idx
    }

    /// An empty storage with no group.
    pub fn new(idx: usize) -> (r: Self)
        ensures
            r@ == Seq::<Seq<ValueType>>::empty(),
            r.spec_idx() == idx,
    {
        let r = DensePagedData { idx, data: Vec::new() };
        assert(r@ =~= Seq::<Seq<ValueType>>::empty());
        r
    }

    pub fn get_idx(&self) -> (r: usize)
        ensures
            r == self.spec_idx(),
    {
        self.idx
    }

    pub fn len_groups(&self) -> (r: usize)
        ensures
            r == self@.len(),
    {
        self.data.len()
    }

    /// Appends `data` to group `group`.
    pub fn push(&mut self, group: usize, data: ValueType)
        requires
            group < old(self)@.len(),
        ensures
            final(self)@ == old(self)@.update(group as int, old(self)@[group as int].push(data)),
            final(self).spec_idx() == old(self).spec_idx(),
    {
        self.data[group].push(data);
        assert(self@ =~= old(self)@.update(group as int, old(self)@[group as int].push(data)));
    }

    /// Appends all of `data` to group `group`, in order.
    pub fn extend(&mut self, group: usize, data: Vec<ValueType>)
        requires
            group < old(self)@.len(),
        ensures
            final(self)@ == old(self)@.update(group as int, old(self)@[group as int] + data@),
            final(self).spec_idx() == old(self).spec_idx(),
    {
        let ghost incoming = data@;
        let mut data = data;
        self.data[group].append(&mut data);
        assert(self@ =~= old(self)@.update(group as int, old(self)@[group as int] + incoming));
    }

    /// The value at `index` of group `group`, if there is one.
    pub fn get(&self, group: usize, index: usize) -> (r: Option<&ValueType>)
        requires
            group < self@.len(),
        ensures
            index < self@[group as int].len() ==> r == Some(&self@[group as int][index as int]),
            index >= self@[group as int].len() ==> r is None,
    {
        if index < self.data[group].len() {
            Some(&self.data[group][index])
        } else {
            None
        }
    }

    /// Mutable access to the value at `index` of group `group`; whatever is
    /// written through it lands at that position and nowhere else.
    pub fn value_mut(&mut self, group: usize, index: usize) -> (r: &mut ValueType)
        requires
            group < old(self)@.len(),
            index < old(self)@[group as int].len(),
        ensures
            *r == old(self)@[group as int][index as int],
            final(self)@ == old(self)@.update(
                group as int,
                old(self)@[group as int].update(index as int, *final(r)),
            ),
            final(self).spec_idx() == old(self).spec_idx(),
    {
        &mut self.data[group][index]
    }

    /// Makes the storage hold exactly `group_count` groups: new groups are
    /// empty, groups past the count are dropped.
    pub fn ensure_group_count(&mut self, group_count: usize)
        ensures
            final(self)@.len() == group_count,
            forall|g: int|
                0 <= g < group_count && g < old(self)@.len() ==> #[trigger] final(self)@[g] == old(self)@[g],
            forall|g: int|
                old(self)@.len() <= g < group_count ==> #[trigger] final(self)@[g] == Seq::<ValueType>::empty(),
            final(self).spec_idx() == old(self).spec_idx(),
    {
        if group_count <= self.data.len() {
            self.data.truncate(group_count);
        } else {
            while self.data.len() < group_count
                invariant
                    old(self)@.len() <= self@.len() <= group_count,
                    forall|g: int| 0 <= g < old(self)@.len() ==> #[trigger] self@[g] == old(self)@[g],
                    forall|g: int| old(self)@.len() <= g < self@.len() ==> #[trigger] self@[g] == Seq::<ValueType>::empty(),
                    self.spec_idx() == old(self).spec_idx(),
                decreases group_count - self@.len(),
            {
                let ghost prev = self@;
                self.data.push(Vec::new());
                assert forall|g: int| 0 <= g < prev.len() implies #[trigger] self@[g] == prev[g] by {}
            }
        }
    }

    /// Drops the value at `index` of group `group`; the group's last value
    /// moves into its place.
    pub fn swap_remove(&mut self, group: usize, index: usize)
        requires
            group < old(self)@.len(),
            index < old(self)@[group as int].len(),
        ensures
            final(self)@ == old(self)@.update(group as int, swap_removed(old(self)@[group as int], index as int)),
            final(self).spec_idx() == old(self).spec_idx(),
    {
        self.data[group].swap_remove(index);
        assert(self@ =~= old(self)@.update(group as int, swap_removed(old(self)@[group as int], index as int)));
    }

    /// Moves the value at `index` of group `group` to the end of group
    /// `new_group`; the old group's last value moves into its place.
    pub fn move_groups(&mut self, group: usize, index: usize, new_group: usize)
        requires
            group < old(self)@.len(),
            new_group < old(self)@.len(),
            index < old(self)@[group as int].len(),
        ensures
            ({
                let mid = old(self)@.update(group as int, swap_removed(old(self)@[group as int], index as int));
                final(self)@ == mid.update(new_group as int, mid[new_group as int].push(old(self)@[group as int][index as int]))
            }),
            final(self).spec_idx() == old(self).spec_idx(),
    {
        let value = self.data[group].swap_remove(index);
        let ghost mid = self@;
        self.data[new_group].push(value);
        assert(mid =~= old(self)@.update(group as int, swap_removed(old(self)@[group as int], index as int)));
        assert(self@ =~= mid.update(new_group as int, mid[new_group as int].push(value)));
    }
}

/// How a transform treats the storages of an entity's group, given as storage
/// positions: the storages of `removing` types lose the entity's value, and
/// those of types neither removed nor added carry the value over to the new
/// group. Returns `(dropped, moving)`, each in the group's storage order.
pub fn transform_storage_split(group_storages: &[usize], removing: &[usize], adding: &[usize]) -> (r: (
    Vec<usize>,
    Vec<usize>,
))
    ensures
        r.0@ == group_storages@.filter(|s: usize| removing@.contains(s)),
        r.1@ == group_storages@.filter(|s: usize| !removing@.contains(s) && !adding@.contains(s)),
{
    let ghost pd = |s: usize| removing@.contains(s);
    let ghost pm = |s: usize| !removing@.contains(s) && !adding@.contains(s);
    let mut dropped: Vec<usize> = Vec::new();
    let mut moving: Vec<usize> = Vec::new();
    let mut i: usize = 0;
    while i < group_storages.len()
        invariant
            i <= group_storages@.len(),
            pd == (|s: usize| removing@.contains(s)),
            pm == (|s: usize| !removing@.contains(s) && !adding@.contains(s)),
            dropped@ == group_storages@.subrange(0, i as int).filter(pd),
            moving@ == group_storages@.subrange(0, i as int).filter(pm),
        decreases group_storages@.len() - i,
    {
        let s = group_storages[i];
        proof {
            let next = group_storages@.subrange(0, i as int + 1);
            assert(next.drop_last() =~= group_storages@.subrange(0, i as int));
            assert(next.last() == s);
            reveal_with_fuel(Seq::<usize>::filter, 1);
        }
        let removed = slice_contains(removing, s);
        if removed {
            dropped.push(s);
        } else if !slice_contains(adding, s) {
            moving.push(s);
        }
        i = i + 1;
    }
    assert(group_storages@.subrange(0, group_storages@.len() as int) =~= group_storages@);
    (dropped, moving)
}

/// `s` after `Vec::swap_remove(k)`: the last element takes position `k`.
pub open spec fn swap_removed<T>(s: Seq<T>, k: int) -> Seq<T> {
    s.update(k, s.last()).drop_last()
}

/// Removing position `k` from two parallel lists (an entity list and a value
/// list of the same group) keeps them parallel: each position still pairs an
/// entity with the value it had before, and the removed pair is gone.
pub proof fn lemma_swap_removed_parallel<A, B>(a: Seq<A>, b: Seq<B>, k: int)
    requires
        a.len() == b.len(),
        0 <= k < a.len(),
    ensures
        swap_removed(a, k).len() == swap_removed(b, k).len() == a.len() - 1,
        forall|j: int|
            0 <= j < a.len() - 1 ==> {
                let m = if j == k { a.len() - 1 } else { j };
                &&& m != k
                &&& #[trigger] swap_removed(a, k)[j] == a[m]
                &&& swap_removed(b, k)[j] == b[m]
            },
{
}

} // verus!
