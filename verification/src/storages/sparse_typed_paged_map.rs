use crate::entity::Entity;
use crate::storages::group_sets::{
    group_set_lists, group_sets_get, group_sets_index_of, group_sets_insert, group_sets_len, group_sets_new,
};
use crate::storages::query_links::{
    query_link_records, query_links_get, query_links_index_of, query_links_insert_new, query_links_len,
    query_links_link_mut, query_links_new, query_record, with_link,
};
use indexmap::{IndexMap, IndexSet};
use std::collections::hash_map::RandomState;
use crate::utils::secondary_entity_index::{SecondaryEntityIndex, SecondaryEntityIndexErrors};
use vstd::prelude::*;
use vstd::std_specs::cmp::PartialEqSpecImpl;

verus! {

/// Possible errors of a `SparseTypedPagedMap` operation.
#[derive(Debug, PartialEq, Eq)]
pub enum SparseTypedPagedMapErrors<EntityType: Entity> {
    PoisonError,
    SecondaryIndexError(SecondaryEntityIndexErrors<EntityType>),
    ComponentStorageDoesNotExist(&'static str),
    EntityDoesNotExistInStorage(EntityType, &'static str),
    IteratorsNotAllSameLength,
}

impl<EntityType: Entity> From<SecondaryEntityIndexErrors<EntityType>> for SparseTypedPagedMapErrors<EntityType> {
    fn from(source: SecondaryEntityIndexErrors<EntityType>) -> (r: Self) {
        SparseTypedPagedMapErrors::SecondaryIndexError(source)
    }
}

impl<EntityType: Entity> vstd::std_specs::convert::FromSpecImpl<SecondaryEntityIndexErrors<EntityType>> for SparseTypedPagedMapErrors<EntityType> {
    open spec fn obeys_from_spec() -> bool {
        true
    }

    open spec fn from_spec(v: SecondaryEntityIndexErrors<EntityType>) -> Self {
        SparseTypedPagedMapErrors::SecondaryIndexError(v)
    }
}

/// Where an entity's components live: a group, and a position inside it.
#[derive(Clone, Copy, Debug)]
pub struct ComponentLocations {
    pub group: usize,
    pub index: usize,
}

impl PartialEq for ComponentLocations {
    fn eq(&self, other: &Self) -> (r: bool) {
        self.group == other.group && self.index == other.index
    }
}

impl PartialEqSpecImpl for ComponentLocations {
    open spec fn obeys_eq_spec() -> bool {
        true
    }

    open spec fn eq_spec(&self, other: &Self) -> bool {
        self.group == other.group && self.index == other.index
    }
}

impl ComponentLocations {
    pub fn new(group: usize, index: usize) -> (r: Self)
        ensures
            r.group == group,
            r.index == index,
    {
        Self { group, index }
    }

    /// The location that marks "nowhere".
    pub fn invalid() -> (r: Self)
        ensures
            r.group == usize::MAX,
            r.index == usize::MAX,
    {
        Self { group: usize::MAX, index: usize::MAX }
    }
}

/// The components of one type: one list per group of entities.
pub struct DensePagedDataActual<DataType: 'static> {
    data: Vec<Vec<DataType>>,
}

impl<DataType: 'static> DensePagedDataActual<DataType> {
    /// The components of each group.
    pub closed spec fn view(&self) -> Seq<Seq<DataType>> {
        Seq::new(self.data@.len(), |g: int| self.data@[g]@)
    }

    /// A storage of `group_size` empty groups.
    pub fn with_groups(group_size: usize) -> (r: Self)
        ensures
            r@.len() == group_size,
            forall|g: int| 0 <= g < group_size ==> #[trigger] r@[g] == Seq::<DataType>::empty(),
    {
        let mut data: Vec<Vec<DataType>> = Vec::with_capacity(group_size);
        let mut i: usize = 0;
        while i < group_size
            invariant
                i <= group_size,
                data@.len() == i,
                forall|g: int| 0 <= g < i ==> #[trigger] data@[g]@ == Seq::<DataType>::empty(),
            decreases group_size - i,
        {
            data.push(Vec::new());
            i = i + 1;
        }
        Self { data }
    }

    pub fn len_groups(&self) -> (r: usize)
        ensures
            r == self@.len(),
    {
        self.data.len()
    }

    /// Appends `data` to group `group` and returns its position there.
    pub fn push(&mut self, group: usize, data: DataType) -> (r: usize)
        requires
            group < old(self)@.len(),
        ensures
            final(self)@ == old(self)@.update(group as int, old(self)@[group as int].push(data)),
            r == old(self)@[group as int].len(),
    {
        self.data[group].push(data);
        assert(self@ =~= old(self)@.update(group as int, old(self)@[group as int].push(data)));
        self.data[group].len() - 1
    }

    /// Appends all of `data` to group `group`, in order, and returns the
    /// position of the first one.
    pub fn push_all(&mut self, group: usize, data: Vec<DataType>) -> (r: usize)
        requires
            group < old(self)@.len(),
        ensures
            final(self)@ == old(self)@.update(group as int, old(self)@[group as int] + data@),
            r == old(self)@[group as int].len(),
    {
        let start_idx = self.data[group].len();
        let ghost incoming = data@;
        let mut data = data;
        self.data[group].append(&mut data);
        assert(self@ =~= old(self)@.update(group as int, old(self)@[group as int] + incoming));
        start_idx
    }

    /// Keeps only the first `len` components of group `group`.
    pub fn truncate_group(&mut self, group: usize, len: usize)
        requires
            group < old(self)@.len(),
        ensures
            final(self)@ == old(self)@.update(
                group as int,
                if len <= old(self)@[group as int].len() {
                    old(self)@[group as int].subrange(0, len as int)
                } else {
                    old(self)@[group as int]
                },
            ),
    {
        self.data[group].truncate(len);
        assert(self@ =~= old(self)@.update(
            group as int,
            if len <= old(self)@[group as int].len() {
                old(self)@[group as int].subrange(0, len as int)
            } else {
                old(self)@[group as int]
            },
        ));
    }

    /// Makes the storage hold exactly `new_len` groups: new groups are empty,
    /// groups past the count are dropped.
    pub fn resize(&mut self, new_len: usize)
        ensures
            final(self)@.len() == new_len,
            forall|g: int| 0 <= g < new_len && g < old(self)@.len() ==> #[trigger] final(self)@[g] == old(self)@[g],
            forall|g: int| old(self)@.len() <= g < new_len ==> #[trigger] final(self)@[g] == Seq::<DataType>::empty(),
    {
        if new_len <= self.data.len() {
            self.data.truncate(new_len);
        } else {
            while self.data.len() < new_len
                invariant
                    old(self)@.len() <= self@.len() <= new_len,
                    forall|g: int| 0 <= g < old(self)@.len() ==> #[trigger] self@[g] == old(self)@[g],
                    forall|g: int| old(self)@.len() <= g < self@.len() ==> #[trigger] self@[g] == Seq::<DataType>::empty(),
                decreases new_len - self@.len(),
            {
                let ghost prev = self@;
                self.data.push(Vec::new());
                assert forall|g: int| 0 <= g < prev.len() implies #[trigger] self@[g] == prev[g] by {}
            }
        }
    }

    /// Drops the component at `index` of group `group`; the group's last
    /// component moves into its place.
    pub fn swap_remove(&mut self, group: usize, index: u8)
        requires
            group < old(self)@.len(),
            index < old(self)@[group as int].len(),
        ensures
            final(self)@ == old(self)@.update(
                group as int,
                old(self)@[group as int].update(index as int, old(self)@[group as int].last()).drop_last(),
            ),
    {
        self.data[group].swap_remove(index as usize);
        assert(self@ =~= old(self)@.update(
            group as int,
            old(self)@[group as int].update(index as int, old(self)@[group as int].last()).drop_last(),
        ));
    }

    /// The components of group `group`.
    pub fn group_slice(&self, group: usize) -> (r: &[DataType])
        requires
            group < self@.len(),
        ensures
            r@ == self@[group as int],
    {
        self.data[group].as_slice()
    }

    /// The components of group `group`, for writing.
    pub fn group_slice_mut(&mut self, group: usize) -> (r: &mut [DataType])
        requires
            group < old(self)@.len(),
        ensures
            r@ == old(self)@[group as int],
            final(self)@ == old(self)@.update(group as int, final(r)@),
    {
        self.data[group].as_mut_slice()
    }

    /// The component at `index` of group `group`, if there is one.
    ///
    /// Position `index == len` of a group panics (the bound check accepts it),
    /// so it is left out.
    pub fn value_at(&self, group: usize, index: usize) -> (r: Option<&DataType>)
        requires
            group < self@.len(),
            index != self@[group as int].len(),
        ensures
            index < self@[group as int].len() ==> r == Some(&self@[group as int][index as int]),
            index > self@[group as int].len() ==> r is None,
    {
        let slice = &self.data[group];
        if slice.len() >= index {
            Some(&slice[index])
        } else {
            None
        }
    }
}

/// The indices below `n`, in increasing order, that satisfy `p`.
pub open spec fn indices_where(n: nat, p: spec_fn(int) -> bool) -> Seq<usize>
    decreases n,
{
    if n == 0 {
        Seq::empty()
    } else {
        let r = indices_where((n - 1) as nat, p);
        if p(n - 1) {
            r.push((n - 1) as usize)
        } else {
            r
        }
    }
}

/// `indices_where` only looks at the predicate below `n`.
pub proof fn lemma_indices_where_congruent(n: nat, p1: spec_fn(int) -> bool, p2: spec_fn(int) -> bool)
    requires
        forall|g: int| 0 <= g < n ==> #[trigger] p1(g) == p2(g),
    ensures
        indices_where(n, p1) == indices_where(n, p2),
    decreases n,
{
    if n > 0 {
        lemma_indices_where_congruent((n - 1) as nat, p1, p2);
    }
}

/// Whether every type of `wanted` is among `types`.
pub open spec fn has_all(types: Seq<usize>, wanted: Seq<usize>) -> bool {
    forall|i: int| 0 <= i < wanted.len() ==> types.contains(#[trigger] wanted[i])
}

/// Whether some type of `types` is among `wanted`.
pub open spec fn has_any(types: Seq<usize>, wanted: Seq<usize>) -> bool {
    exists|i: int| 0 <= i < types.len() && wanted.contains(#[trigger] types[i])
}

pub(crate) fn slice_contains(s: &[usize], t: usize) -> (r: bool)
    ensures
        r == s@.contains(t),
{
    let mut i: usize = 0;
    while i < s.len()
        invariant
            i <= s@.len(),
            forall|j: int| 0 <= j < i ==> s@[j] != t,
        decreases s@.len() - i,
    {
        if s[i] == t {
            return true;
        }
        i = i + 1;
    }
    false
}

fn contains_all(types: &[usize], wanted: &[usize]) -> (r: bool)
    ensures
        r == has_all(types@, wanted@),
{
    let mut i: usize = 0;
    while i < wanted.len()
        invariant
            i <= wanted@.len(),
            forall|j: int| 0 <= j < i ==> types@.contains(#[trigger] wanted@[j]),
        decreases wanted@.len() - i,
    {
        if !slice_contains(types, wanted[i]) {
            return false;
        }
        i = i + 1;
    }
    true
}

fn contains_any(types: &[usize], wanted: &[usize]) -> (r: bool)
    ensures
        r == has_any(types@, wanted@),
{
    let mut i: usize = 0;
    while i < types.len()
        invariant
            i <= types@.len(),
            forall|j: int| 0 <= j < i ==> !wanted@.contains(#[trigger] types@[j]),
        decreases types@.len() - i,
    {
        if slice_contains(wanted, types[i]) {
            return true;
        }
        i = i + 1;
    }
    false
}

/// The groups, in order, whose types contain every type of `include_tids`;
/// none where `include_tids` is empty.
pub fn get_include_matching_query_groups(
    groups_to_maps: &IndexSet<Vec<usize>, RandomState>,
    include_tids: &[usize],
) -> (out: Vec<usize>)
    ensures
        include_tids@.len() == 0 ==> out@ == Seq::<usize>::empty(),
        include_tids@.len() > 0 ==> out@ == indices_where(
            group_set_lists(*groups_to_maps).len(),
            |g: int| has_all(group_set_lists(*groups_to_maps)[g], include_tids@),
        ),
{
    let mut out: Vec<usize> = Vec::new();
    if include_tids.len() == 0 {
        return out;
    }
    let ghost lists = group_set_lists(*groups_to_maps);
    let ghost p = |g: int| has_all(lists[g], include_tids@);
    let n = group_sets_len(groups_to_maps);
    let mut idx: usize = 0;
    while idx < n
        invariant
            n == lists.len(),
            lists == group_set_lists(*groups_to_maps),
            idx <= n,
            out@ == indices_where(idx as nat, p),
            p == (|g: int| has_all(lists[g], include_tids@)),
        decreases n - idx,
    {
        proof {
            assert(indices_where((idx + 1) as nat, p) == if p(idx as int) {
                indices_where(idx as nat, p).push(idx)
            } else {
                indices_where(idx as nat, p)
            });
        }
        let types = match group_sets_get(groups_to_maps, idx) {
            Some(t) => t.as_slice(),
            None => {
                return out;
            },
        };
        let found = contains_all(types, include_tids);
        assert(found == p(idx as int));
        if found {
            out.push(idx);
        }
        idx = idx + 1;
    }
    out
}

/// The groups, in order, that have some type of `exclude_tids`; none where
/// `exclude_tids` is empty.
pub fn get_exclude_matching_query_groups(
    groups_to_maps: &IndexSet<Vec<usize>, RandomState>,
    exclude_tids: &[usize],
) -> (out: Vec<usize>)
    ensures
        exclude_tids@.len() == 0 ==> out@ == Seq::<usize>::empty(),
        exclude_tids@.len() > 0 ==> out@ == indices_where(
            group_set_lists(*groups_to_maps).len(),
            |g: int| has_any(group_set_lists(*groups_to_maps)[g], exclude_tids@),
        ),
{
    let mut out: Vec<usize> = Vec::new();
    if exclude_tids.len() == 0 {
        return out;
    }
    let ghost lists = group_set_lists(*groups_to_maps);
    let ghost p = |g: int| has_any(lists[g], exclude_tids@);
    let n = group_sets_len(groups_to_maps);
    let mut idx: usize = 0;
    while idx < n
        invariant
            n == lists.len(),
            lists == group_set_lists(*groups_to_maps),
            idx <= n,
            out@ == indices_where(idx as nat, p),
            p == (|g: int| has_any(lists[g], exclude_tids@)),
        decreases n - idx,
    {
        proof {
            assert(indices_where((idx + 1) as nat, p) == if p(idx as int) {
                indices_where(idx as nat, p).push(idx)
            } else {
                indices_where(idx as nat, p)
            });
        }
        let types = match group_sets_get(groups_to_maps, idx) {
            Some(t) => t.as_slice(),
            None => {
                return out;
            },
        };
        let found = contains_any(types, exclude_tids);
        assert(found == p(idx as int));
        if found {
            out.push(idx);
        }
        idx = idx + 1;
    }
    out
}

/// The groups, in order, all of whose storages are among `set_types` (the
/// storages of a component set).
pub fn get_matching_query_groups(group_sets: &IndexSet<Vec<usize>, RandomState>, set_types: &[usize]) -> (out: Vec<usize>)
    ensures
        out@ == indices_where(
            group_set_lists(*group_sets).len(),
            |g: int| has_all(set_types@, group_set_lists(*group_sets)[g]),
        ),
{
    let mut out: Vec<usize> = Vec::new();
    let ghost lists = group_set_lists(*group_sets);
    let ghost p = |g: int| has_all(set_types@, lists[g]);
    let n = group_sets_len(group_sets);
    let mut idx: usize = 0;
    while idx < n
        invariant
            n == lists.len(),
            lists == group_set_lists(*group_sets),
            idx <= n,
            out@ == indices_where(idx as nat, p),
            p == (|g: int| has_all(set_types@, lists[g])),
        decreases n - idx,
    {
        proof {
            assert(indices_where((idx + 1) as nat, p) == if p(idx as int) {
                indices_where(idx as nat, p).push(idx)
            } else {
                indices_where(idx as nat, p)
            });
        }
        let types = match group_sets_get(group_sets, idx) {
            Some(t) => t.as_slice(),
            None => {
                return out;
            },
        };
        let found = contains_all(set_types, types);
        assert(found == p(idx as int));
        if found {
            out.push(idx);
        }
        idx = idx + 1;
    }
    out
}

/// Whether no type of `wanted` is among `types`.
pub open spec fn has_none(types: Seq<usize>, wanted: Seq<usize>) -> bool {
    forall|i: int| 0 <= i < wanted.len() ==> !types.contains(#[trigger] wanted[i])
}

fn contains_none(types: &[usize], wanted: &[usize]) -> (r: bool)
    ensures
        r == has_none(types@, wanted@),
{
    let mut i: usize = 0;
    while i < wanted.len()
        invariant
            i <= wanted@.len(),
            forall|j: int| 0 <= j < i ==> !types@.contains(#[trigger] wanted@[j]),
        decreases wanted@.len() - i,
    {
        if slice_contains(types, wanted[i]) {
            return false;
        }
        i = i + 1;
    }
    true
}

/// The groups a query reads, keyed by the storages it includes and excludes.
pub struct QueryTypedPagedLink {
    pub include_groups: Vec<usize>,
    pub exclude_groups: Vec<usize>,
    pub include_maps: Vec<usize>,
}

/// What is recorded of a query: its key (the storages it includes and
/// excludes) and its link.
pub struct QueryRecord {
    pub includes: Seq<usize>,
    pub excludes: Seq<usize>,
    pub include_groups: Seq<usize>,
    pub exclude_groups: Seq<usize>,
    pub include_maps: Seq<usize>,
}

/// Whether a group with storages `types` matches the query `q`.
pub open spec fn query_matches(q: QueryRecord, types: Seq<usize>) -> bool {
    has_all(types, q.includes) && has_none(types, q.excludes)
}

/// `q` once group `group`, of storages `types`, exists: the group joins the
/// groups the query reads where it matches.
pub open spec fn with_new_group(q: QueryRecord, types: Seq<usize>, group: usize) -> QueryRecord {
    QueryRecord {
        include_groups: if query_matches(q, types) {
            q.include_groups.push(group)
        } else {
            q.include_groups
        },
        ..q
    }
}

/// Adds group `group` to the included groups of every query that it matches.
pub fn update_query_mappings(
    group_to_maps: &IndexSet<Vec<usize>, RandomState>,
    query_mappings: &mut IndexMap<(Vec<usize>, Vec<usize>), QueryTypedPagedLink, RandomState>,
    group: usize,
)
    requires
        group < group_set_lists(*group_to_maps).len(),
    ensures
        query_link_records(*final(query_mappings)).len() == query_link_records(*old(query_mappings)).len(),
        forall|q: int|
            0 <= q < query_link_records(*old(query_mappings)).len() ==> #[trigger] query_link_records(
                *final(query_mappings),
            )[q] == with_new_group(
                query_link_records(*old(query_mappings))[q],
                group_set_lists(*group_to_maps)[group as int],
                group,
            ),
{
    let types = match group_sets_get(group_to_maps, group) {
        Some(t) => t.as_slice(),
        None => {
            return;
        },
    };
    let ghost old_records = query_link_records(*query_mappings);
    let n = query_links_len(query_mappings);
    let mut q: usize = 0;
    while q < n
        invariant
            old_records == query_link_records(*old(query_mappings)),
            n == old_records.len(),
            q <= n,
            types@ == group_set_lists(*group_to_maps)[group as int],
            query_link_records(*query_mappings).len() == n,
            forall|j: int| q <= j < n ==> #[trigger] query_link_records(*query_mappings)[j] == old_records[j],
            forall|j: int|
                0 <= j < q ==> #[trigger] query_link_records(*query_mappings)[j] == with_new_group(
                    old_records[j],
                    types@,
                    group,
                ),
        decreases n - q,
    {
        let matches = match query_links_get(query_mappings, q) {
            Some(entry) => contains_all(types, entry.0.0.as_slice()) && contains_none(types, entry.0.1.as_slice()),
            None => false,
        };
        assert(matches == query_matches(old_records[q as int], types@));
        if matches {
            let ghost before = query_link_records(*query_mappings);
            let link = query_links_link_mut(query_mappings, q);
            link.include_groups.push(group);
            proof {
                assert(with_link(before[q as int], *link) == with_new_group(old_records[q as int], types@, group));
            }
        }
        q = q + 1;
    }
}

/// The entity bookkeeping of a map from entities to sets of typed components.
///
/// Entities are sorted into groups, one per list of component storages (in
/// component order); `reverse` records, per entity index, the group and the
/// position of its components in the group's storages.
pub struct SparseTypedPagedMap<EntityType: Entity> {
    reverse: SecondaryEntityIndex<EntityType, ComponentLocations>,
    entities: Vec<Vec<EntityType>>,
    group_sets_to_maps: IndexSet<Vec<usize>, RandomState>,
    query_mappings: IndexMap<(Vec<usize>, Vec<usize>), QueryTypedPagedLink, RandomState>,
}

impl<EntityType: Entity> SparseTypedPagedMap<EntityType> {
    /// Entity index to the location of its components.
    pub closed spec fn locations(&self) -> Map<nat, ComponentLocations> {
        self.reverse@
    }

    /// The entities of each group, in insertion order.
    pub closed spec fn groups(&self) -> Seq<Seq<EntityType>> {
        Seq::new(self.entities@.len(), |g: int| self.entities@[g]@)
    }

    /// The storages of each group, in component order.
    pub closed spec fn group_keys(&self) -> Seq<Seq<usize>> {
        group_set_lists(self.group_sets_to_maps)
    }

    /// The queries seen so far, with their links.
    pub closed spec fn queries(&self) -> Seq<QueryRecord> {
        query_link_records(self.query_mappings)
    }

    pub closed spec fn wf(&self) -> bool {
        let gs = self.groups();
        &&& self.reverse.wf()
        &&& self.reverse.invalid().group == usize::MAX
        &&& self.reverse.invalid().index == usize::MAX
        &&& self.entities@.len() == self.group_keys().len()
        &&& forall|g: int, k: int|
            0 <= g < gs.len() && 0 <= k < gs[g].len() ==> #[trigger] self.reverse@.contains_key(gs[g][k].spec_idx())
                && self.reverse@[gs[g][k].spec_idx()].group == g
        &&& self.group_keys().no_duplicates()
        &&& forall|a: int, b: int|
            0 <= a < b < self.queries().len() ==> !same_query(#[trigger] self.queries()[a], #[trigger] self.queries()[b])
        &&& forall|q: int| 0 <= q < self.queries().len() ==> tracks_matches(#[trigger] self.queries()[q], self.group_keys())
    }

    /// Every recorded query that includes some storage and excludes none reads
    /// exactly the groups, in order, that hold all the storages it includes.
    pub proof fn lemma_queries_track_groups(&self)
        requires
            self.wf(),
        ensures
            forall|q: int| 0 <= q < self.queries().len() ==> tracks_matches(#[trigger] self.queries()[q], self.group_keys()),
    {
    }

    pub fn new() -> (r: Self)
        ensures
            r.wf(),
            r.locations() == Map::<nat, ComponentLocations>::empty(),
            r.groups() == Seq::<Seq<EntityType>>::empty(),
            r.group_keys() == Seq::<Seq<usize>>::empty(),
            r.queries() == Seq::<QueryRecord>::empty(),
    {
        proof {
            reveal(vstd::laws_eq::obeys_concrete_eq);
        }
        let r = Self {
            reverse: SecondaryEntityIndex::new(ComponentLocations::invalid()),
            entities: Vec::new(),
            group_sets_to_maps: group_sets_new(),
            query_mappings: query_links_new(),
        };
        assert(r.groups() =~= Seq::<Seq<EntityType>>::empty());
        assert(r.group_keys() =~= Seq::<Seq<usize>>::empty());
        r
    }

    /// Whether components are recorded at `entity`'s index.
    pub fn contains(&self, entity: EntityType) -> (r: bool)
        requires
            self.wf(),
        ensures
            r == self.locations().contains_key(entity.spec_idx()),
    {
        self.reverse.get(entity).is_ok()
    }

    pub fn group_count(&self) -> (r: usize)
        requires
            self.wf(),
        ensures
            r == self.groups().len(),
            r == self.group_keys().len(),
    {
        self.entities.len()
    }

    /// The number of entities in group `group`.
    pub fn group_len(&self, group: usize) -> (r: usize)
        requires
            self.wf(),
            group < self.groups().len(),
        ensures
            r == self.groups()[group as int].len(),
    {
        self.entities[group].len()
    }

    /// The group whose storages are exactly `types`, if there is one.
    pub fn find_group(&self, types: &[usize]) -> (r: Option<usize>)
        requires
            self.wf(),
        ensures
            r is Some ==> r->0 < self.group_keys().len() && self.group_keys()[r->0 as int] == types@,
            r is None ==> forall|g: int| 0 <= g < self.group_keys().len() ==> self.group_keys()[g] != types@,
    {
        group_sets_index_of(&self.group_sets_to_maps, types)
    }

    /// The group whose storages are exactly `types`, created (empty, and
    /// added to every query it matches) where there is none. Returns the
    /// group and whether it was created.
    pub fn group_for(&mut self, types: Vec<usize>, capacity: usize) -> (r: (usize, bool))
        requires
            old(self).wf(),
        ensures
            final(self).wf(),
            final(self).locations() == old(self).locations(),
            r.0 < final(self).group_keys().len(),
            final(self).group_keys()[r.0 as int] == types@,
            !r.1 ==> final(self).group_keys() == old(self).group_keys() && final(self).groups() == old(self).groups()
                && final(self).queries() == old(self).queries(),
            r.1 ==> {
                &&& forall|g: int| 0 <= g < old(self).group_keys().len() ==> old(self).group_keys()[g] != types@
                &&& r.0 == old(self).group_keys().len()
                &&& final(self).group_keys() == old(self).group_keys().push(types@)
                &&& final(self).groups() == old(self).groups().push(Seq::<EntityType>::empty())
                &&& final(self).queries().len() == old(self).queries().len()
                &&& forall|q: int|
                    0 <= q < old(self).queries().len() ==> #[trigger] final(self).queries()[q] == with_new_group(
                        old(self).queries()[q],
                        types@,
                        r.0,
                    )
            },
    {
        let ghost old_keys = self.group_keys();
        let ghost old_groups = self.groups();
        let ghost ty = types@;
        let (group, created) = group_sets_insert(&mut self.group_sets_to_maps, types);
        if !created {
            proof {
                assert(old_keys.contains(ty)) by {
                    if !old_keys.contains(ty) {
                        assert(self.group_keys() == old_keys.push(ty));
                    }
                }
                assert(self.group_keys() == old_keys);
            }
            return (group, false);
        }
        proof {
            assert(!old_keys.contains(ty)) by {
                if old_keys.contains(ty) {
                    assert(self.group_keys() == old_keys);
                }
            }
        }
        self.entities.push(Vec::with_capacity(capacity));
        update_query_mappings(&self.group_sets_to_maps, &mut self.query_mappings, group);
        proof {
            assert(self.group_keys() =~= old_keys.push(ty));
            assert(self.groups() =~= old_groups.push(Seq::<EntityType>::empty()));
            assert forall|g: int| 0 <= g < old_keys.len() implies old_keys[g] != ty by {
                if old_keys[g] == ty {
                    assert(old_keys.contains(ty));
                }
            }
            assert forall|g: int, k: int|
                0 <= g < self.groups().len() && 0 <= k < self.groups()[g].len() implies
                #[trigger] self.reverse@.contains_key(self.groups()[g][k].spec_idx())
                    && self.reverse@[self.groups()[g][k].spec_idx()].group == g by {
                if g < old_groups.len() {
                    assert(self.groups()[g] == old_groups[g]);
                    assert(old_groups == old(self).groups());
                    assert(old(self).reverse@.contains_key(old(self).groups()[g][k].spec_idx()));
                } else {
                    assert(self.groups()[g] == Seq::<EntityType>::empty());
                }
            }
            assert(self.group_keys().no_duplicates()) by {
                let nk = self.group_keys();
                assert forall|a: int, b: int| 0 <= a < nk.len() && 0 <= b < nk.len() && a != b implies nk[a] != nk[b] by {
                    if a < old_keys.len() && b < old_keys.len() {
                        assert(old_keys[a] != old_keys[b]);
                    } else if a < old_keys.len() {
                        assert(old_keys[a] != ty);
                    } else if b < old_keys.len() {
                        assert(old_keys[b] != ty);
                    }
                }
            }
            assert forall|a: int, b: int|
                0 <= a < b < self.queries().len() implies !same_query(
                    #[trigger] self.queries()[a],
                    #[trigger] self.queries()[b],
                ) by {
                assert(!same_query(old(self).queries()[a], old(self).queries()[b]));
            }
            let nkeys = self.group_keys();
            assert forall|q: int| 0 <= q < self.queries().len() implies
                tracks_matches(#[trigger] self.queries()[q], nkeys) by {
                let o = old(self).queries()[q];
                let n = self.queries()[q];
                assert(n == with_new_group(o, ty, group));
                assert(tracks_matches(o, old_keys));
                if n.includes.len() > 0 && n.excludes.len() == 0 {
                    let p_old = |g: int| has_all(old_keys[g], o.includes);
                    let p_new = |g: int| has_all(nkeys[g], n.includes);
                    lemma_indices_where_congruent(old_keys.len(), p_old, p_new);
                    assert(indices_where(nkeys.len(), p_new) == if p_new(group as int) {
                        indices_where(old_keys.len(), p_new).push(group)
                    } else {
                        indices_where(old_keys.len(), p_new)
                    });
                    assert(has_none(ty, o.excludes));
                }
            }
        }
        (group, true)
    }

    /// Where the components of `entity`'s index are, if anywhere.
    pub fn location(&self, entity: EntityType) -> (r: Option<ComponentLocations>)
        requires
            self.wf(),
        ensures
            r is Some <==> self.locations().contains_key(entity.spec_idx()),
            r is Some ==> r->0 == self.locations()[entity.spec_idx()],
    {
        match self.reverse.get(entity) {
            Ok(l) => Some(*l),
            Err(_) => None,
        }
    }

    /// The groups that the query including the storages `includes` and
    /// excluding `excludes` reads. On its first use the query is recorded with
    /// the groups that match it now; later groups join it as they are created.
    pub fn query_groups(&mut self, includes: Vec<usize>, excludes: Vec<usize>) -> (r: Vec<usize>)
        requires
            old(self).wf(),
        ensures
            final(self).wf(),
            final(self).locations() == old(self).locations(),
            final(self).groups() == old(self).groups(),
            final(self).group_keys() == old(self).group_keys(),
            (exists|q: int|
                0 <= q < old(self).queries().len() && old(self).queries()[q].includes == includes@
                    && old(self).queries()[q].excludes == excludes@) ==> {
                &&& final(self).queries() == old(self).queries()
                &&& exists|q: int|
                    0 <= q < old(self).queries().len() && (#[trigger] old(self).queries()[q]).includes == includes@
                        && old(self).queries()[q].excludes == excludes@ && r@ == old(self).queries()[q].include_groups
            },
            !(exists|q: int|
                0 <= q < old(self).queries().len() && old(self).queries()[q].includes == includes@
                    && old(self).queries()[q].excludes == excludes@) ==> {
                let n = final(self).queries().last();
                let keys = old(self).group_keys();
                &&& final(self).queries().len() == old(self).queries().len() + 1
                &&& final(self).queries().drop_last() == old(self).queries()
                &&& n.includes == includes@
                &&& n.excludes == excludes@
                &&& n.include_maps == includes@
                &&& includes@.len() == 0 ==> n.include_groups == Seq::<usize>::empty()
                &&& includes@.len() > 0 ==> n.include_groups == indices_where(
                    keys.len(),
                    |g: int| has_all(keys[g], includes@),
                )
                &&& excludes@.len() == 0 ==> n.exclude_groups == Seq::<usize>::empty()
                &&& excludes@.len() > 0 ==> n.exclude_groups == indices_where(
                    keys.len(),
                    |g: int| has_any(keys[g], excludes@),
                )
                &&& r@ == n.include_groups
            },
    {
        let ghost inc = includes@;
        let ghost exc = excludes@;
        let key = (includes, excludes);
        if let Some(q) = query_links_index_of(&self.query_mappings, &key) {
            match query_links_get(&self.query_mappings, q) {
                Some((_k, link)) => {
                    let groups = clone_indices(&link.include_groups);
                    assert(self.queries()[q as int].includes == inc);
                    return groups;
                },
                None => {
                    return Vec::new();
                },
            }
        }
        let include_groups = get_include_matching_query_groups(&self.group_sets_to_maps, key.0.as_slice());
        let exclude_groups = get_exclude_matching_query_groups(&self.group_sets_to_maps, key.1.as_slice());
        let out = clone_indices(&include_groups);
        let include_maps = clone_indices(&key.0);
        let ghost old_queries = self.queries();
        let link = QueryTypedPagedLink { include_groups, exclude_groups, include_maps };
        let ghost rec = query_record(key, link);
        query_links_insert_new(&mut self.query_mappings, key, link);
        proof {
            let keys = old(self).group_keys();
            assert(self.queries() == old_queries.push(rec));
            assert(self.queries().drop_last() =~= old_queries);
            assert(self.queries().last() == rec);
            assert(forall|qq: int| 0 <= qq < old_queries.len() ==> #[trigger] self.queries()[qq] == old_queries[qq]);
            assert(self.groups() =~= old(self).groups());
            assert forall|qq: int| 0 <= qq < self.queries().len() implies
                tracks_matches(#[trigger] self.queries()[qq], self.group_keys()) by {
                if qq < old_queries.len() {
                    assert(tracks_matches(old(self).queries()[qq], old(self).group_keys()));
                }
            }
            assert forall|a: int, b: int|
                0 <= a < b < self.queries().len() implies !same_query(
                    #[trigger] self.queries()[a],
                    #[trigger] self.queries()[b],
                ) by {
                if b == old_queries.len() {
                    assert(self.queries()[a] == old_queries[a]);
                } else {
                    assert(!same_query(old_queries[a], old_queries[b]));
                }
            }
            assert forall|g: int, k: int|
                0 <= g < self.groups().len() && 0 <= k < self.groups()[g].len() implies #[trigger] self.reverse@.contains_key(self.groups()[g][k].spec_idx())
                    && self.reverse@[self.groups()[g][k].spec_idx()].group == g by {
                assert(old(self).reverse@.contains_key(old(self).groups()[g][k].spec_idx()));
            }
        }
        out
    }

    /// Records `entity` at `location`, at the end of its group's entities.
    ///
    /// Fails with `SecondaryIndexError(IndexAlreadyExists)` where components
    /// are recorded at its index.
    pub fn insert_location(&mut self, entity: EntityType, location: ComponentLocations) -> (r: Result<
        (),
        SparseTypedPagedMapErrors<EntityType>,
    >)
        requires
            old(self).wf(),
            location.group < old(self).groups().len(),
        ensures
            final(self).wf(),
            final(self).group_keys() == old(self).group_keys(),
            final(self).queries() == old(self).queries(),
            r is Err <==> old(self).locations().contains_key(entity.spec_idx()),
            r is Err ==> r == Err::<(), _>(
                SparseTypedPagedMapErrors::SecondaryIndexError(SecondaryEntityIndexErrors::IndexAlreadyExists(entity)),
            ) && final(self).locations() == old(self).locations() && final(self).groups() == old(self).groups(),
            r is Ok ==> final(self).locations() == old(self).locations().insert(entity.spec_idx(), location),
            r is Ok ==> final(self).groups() == old(self).groups().update(
                location.group as int,
                old(self).groups()[location.group as int].push(entity),
            ),
    {
        let group_count = self.entities.len();
        let ghost gs = self.groups();
        match self.reverse.insert_mut(entity) {
            Ok(slot) => {
                *slot = location;
            },
            Err(e) => {
                assert(self.groups() =~= gs);
                assert(self.queries() == old(self).queries());
                return Err(SparseTypedPagedMapErrors::SecondaryIndexError(e));
            },
        }
        self.entities[location.group].push(entity);
        proof {
            assert(self.queries() == old(self).queries());
            let i = entity.spec_idx();
            let ngs = gs.update(location.group as int, gs[location.group as int].push(entity));
            assert(self.groups() =~= ngs);
            assert(location != self.reverse.invalid());
            assert(self.reverse@ =~= old(self).reverse@.insert(i, location));
            assert forall|g: int, k: int|
                0 <= g < ngs.len() && 0 <= k < ngs[g].len() implies #[trigger] self.reverse@.contains_key(ngs[g][k].spec_idx())
                    && self.reverse@[ngs[g][k].spec_idx()].group == g by {
                if !(g == location.group && k == gs[g].len()) {
                    assert(ngs[g][k] == gs[g][k]);
                    assert(old(self).reverse@.contains_key(old(self).groups()[g][k].spec_idx()));
                }
            }
        }
        Ok(())
    }

    /// Records the entities of `batch`, in order, at the end of group `group`,
    /// at positions `start_idx`, `start_idx + 1`, ... of its storages.
    ///
    /// Where an entity's index is already recorded (before the call or earlier
    /// in the batch), forgets the entities recorded by this call and fails with
    /// `SecondaryIndexError(IndexAlreadyExists)` of that entity.
    pub fn extend_locations(&mut self, batch: Vec<EntityType>, group: usize, start_idx: usize) -> (r: Result<
        (),
        SparseTypedPagedMapErrors<EntityType>,
    >)
        requires
            old(self).wf(),
            group < old(self).groups().len(),
            start_idx + batch@.len() <= usize::MAX,
        ensures
            final(self).wf(),
            final(self).group_keys() == old(self).group_keys(),
            final(self).queries() == old(self).queries(),
            r is Ok <==> batch_fresh(old(self).locations().dom(), batch@, batch@.len() as int),
            r is Err ==> final(self).locations() == old(self).locations() && final(self).groups() == old(self).groups(),
            r is Err ==> exists|p: int|
                0 <= p < batch@.len() && batch_fresh(old(self).locations().dom(), batch@, p) && !batch_fresh(
                    old(self).locations().dom(),
                    batch@,
                    p + 1,
                ) && r == Err::<(), _>(
                    SparseTypedPagedMapErrors::SecondaryIndexError(SecondaryEntityIndexErrors::IndexAlreadyExists(#[trigger] batch@[p])),
                ),
            r is Ok ==> final(self).groups() == old(self).groups().update(
                group as int,
                old(self).groups()[group as int] + batch@,
            ),
            r is Ok ==> forall|j: int|
                0 <= j < batch@.len() ==> #[trigger] final(self).locations()[batch@[j].spec_idx()] == (ComponentLocations {
                    group,
                    index: (start_idx + j) as usize,
                }),
            r is Ok ==> forall|i: nat|
                #[trigger] final(self).locations().contains_key(i) <==> (old(self).locations().contains_key(i)
                    || exists|j: int| 0 <= j < batch@.len() && batch@[j].spec_idx() == i),
            r is Ok ==> forall|i: nat|
                #[trigger] old(self).locations().contains_key(i) ==> final(self).locations()[i] == old(self).locations()[i],
    {
        let ghost gs = self.groups();
        let ghost dom = self.reverse@.dom();
        let group_size = self.entities[group].len();
        proof {
            assert forall|g: int, k: int| 0 <= g < gs.len() && 0 <= k < gs[g].len() implies
                dom.contains(#[trigger] gs[g][k].spec_idx()) by {
                assert(old(self).reverse@.contains_key(old(self).groups()[g][k].spec_idx()));
            }
        }
        let mut j: usize = 0;
        while j < batch.len()
            invariant
                self.wf(),
                group < gs.len(),
                gs == old(self).groups(),
                dom == old(self).locations().dom(),
                j <= batch@.len(),
                start_idx + batch@.len() <= usize::MAX,
                group_size == gs[group as int].len(),
                self.group_keys() == old(self).group_keys(),
                self.queries() == old(self).queries(),
                self.reverse.invalid() == old(self).reverse.invalid(),
                self.groups() == gs.update(group as int, gs[group as int] + batch@.subrange(0, j as int)),
                batch_fresh(dom, batch@, j as int),
                forall|g: int, k: int| 0 <= g < gs.len() && 0 <= k < gs[g].len() ==> dom.contains(#[trigger] gs[g][k].spec_idx()),
                forall|m: int| 0 <= m < j ==> #[trigger] self.reverse.slot(batch@[m].spec_idx()) == (ComponentLocations {
                    group,
                    index: (start_idx + m) as usize,
                }),
                forall|i: nat|
                    (forall|m: int| 0 <= m < j ==> batch@[m].spec_idx() != i) ==> #[trigger] self.reverse.slot(i)
                        == old(self).reverse.slot(i),
            decreases batch@.len() - j,
        {
            let entity = batch[j];
            let ghost prev = *self;
            assert(self.groups().len() == self.entities@.len());
            assert(self.entities@.len() == gs.len());
            match self.reverse.insert_mut(entity) {
                Ok(slot) => {
                    *slot = ComponentLocations { group, index: start_idx + j };
                },
                Err(e) => {
                    proof {
                        assert(!batch_fresh(dom, batch@, j + 1)) by {
                            let i = entity.spec_idx();
                            assert(prev.reverse@.contains_key(i));
                            if !dom.contains(i) {
                                assert(old(self).reverse.slot(i) == old(self).reverse.invalid());
                                if forall|m: int| 0 <= m < j ==> batch@[m].spec_idx() != i {
                                    assert(prev.reverse.slot(i) == old(self).reverse.slot(i));
                                }
                            }
                        }
                    }
                    proof {
                        assert forall|m: int| 0 <= m < j implies self.reverse@.contains_key(#[trigger] batch@[m].spec_idx()) by {
                            assert(self.reverse.slot(batch@[m].spec_idx()) == (ComponentLocations { group, index: (start_idx + m) as usize }));
                        }
                    }
                    self.forget_batch(&batch, j, group, group_size, Ghost(gs), Ghost(dom));
                    proof {
                        assert(self.reverse@ =~= old(self).reverse@) by {
                            assert forall|i: nat| #[trigger] self.reverse.slot(i) == old(self).reverse.slot(i) by {
                                if exists|m: int| 0 <= m < j && batch@[m].spec_idx() == i {
                                    let m = choose|m: int| 0 <= m < j && batch@[m].spec_idx() == i;
                                    assert(!dom.contains(i));
                                    assert(self.reverse.slot(batch@[m].spec_idx()) == self.reverse.invalid());
                                }
                            }
                        }
                    }
                    return Err(SparseTypedPagedMapErrors::SecondaryIndexError(e));
                },
            }
            self.entities[group].push(entity);
            proof {
                let i = entity.spec_idx();
                assert(batch@.subrange(0, j + 1) =~= batch@.subrange(0, j as int).push(entity));
                assert(self.groups()[group as int] =~= prev.groups()[group as int].push(entity));
                assert forall|g: int| 0 <= g < gs.len() && g != group implies #[trigger] self.groups()[g] == prev.groups()[g] by {}
                assert(self.groups() =~= gs.update(group as int, gs[group as int] + batch@.subrange(0, j + 1)));
                assert(batch_fresh(dom, batch@, j + 1)) by {
                    if dom.contains(i) {
                        assert(old(self).reverse@.contains_key(i));
                        assert(prev.reverse.slot(i) == old(self).reverse.slot(i)) by {
                            if exists|m: int| 0 <= m < j && batch@[m].spec_idx() == i {
                                let m = choose|m: int| 0 <= m < j && batch@[m].spec_idx() == i;
                                assert(prev.reverse.slot(batch@[m].spec_idx()) != prev.reverse.invalid());
                            }
                        }
                    }
                    assert forall|m: int| 0 <= m < j implies batch@[m].spec_idx() != i by {
                        assert(prev.reverse.slot(batch@[m].spec_idx()) != prev.reverse.invalid());
                    }
                }
                assert forall|g: int, k: int|
                    0 <= g < self.groups().len() && 0 <= k < self.groups()[g].len() implies #[trigger] self.reverse@.contains_key(self.groups()[g][k].spec_idx())
                        && self.reverse@[self.groups()[g][k].spec_idx()].group == g by {
                    if !(g == group && k == prev.groups()[g].len()) {
                        assert(self.groups()[g][k] == prev.groups()[g][k]);
                        assert(prev.reverse@.contains_key(prev.groups()[g][k].spec_idx()));
                        assert(self.groups()[g][k].spec_idx() != i);
                    } else {
                        assert(self.groups()[g][k] == entity);
                    }
                }
            }
            j = j + 1;
        }
        proof {
            assert(batch@.subrange(0, batch@.len() as int) =~= batch@);
            assert forall|jj: int| 0 <= jj < batch@.len() implies #[trigger] self.locations()[batch@[jj].spec_idx()] == ComponentLocations {
                group,
                index: (start_idx + jj) as usize,
            } by {
                assert(self.reverse.slot(batch@[jj].spec_idx()) == ComponentLocations { group, index: (start_idx + jj) as usize });
            }
            assert forall|i: nat| #[trigger] self.locations().contains_key(i) <==> (old(self).locations().contains_key(i)
                || exists|jj: int| 0 <= jj < batch@.len() && batch@[jj].spec_idx() == i) by {
                if exists|jj: int| 0 <= jj < batch@.len() && batch@[jj].spec_idx() == i {
                    let jj = choose|jj: int| 0 <= jj < batch@.len() && batch@[jj].spec_idx() == i;
                    assert(self.reverse.slot(batch@[jj].spec_idx()) == ComponentLocations { group, index: (start_idx + jj) as usize });
                }
            }
            assert forall|i: nat| #[trigger] old(self).locations().contains_key(i) implies self.locations()[i] == old(self).locations()[i] by {
                assert forall|m: int| 0 <= m < batch@.len() implies batch@[m].spec_idx() != i by {
                    assert(batch_fresh(dom, batch@, batch@.len() as int));
                }
            }
        }
        Ok(())
    }

    /// Forgets the first `j` entities of `batch`, which the running
    /// `extend_locations` recorded at the end of group `group`.
    fn forget_batch(
        &mut self,
        batch: &Vec<EntityType>,
        j: usize,
        group: usize,
        group_size: usize,
        Ghost(gs): Ghost<Seq<Seq<EntityType>>>,
        Ghost(dom): Ghost<Set<nat>>,
    )
        requires
            old(self).wf(),
            group < gs.len(),
            j <= batch@.len(),
            group_size == gs[group as int].len(),
            old(self).groups() == gs.update(group as int, gs[group as int] + batch@.subrange(0, j as int)),
            batch_fresh(dom, batch@, j as int),
            forall|g: int, k: int| 0 <= g < gs.len() && 0 <= k < gs[g].len() ==> dom.contains(#[trigger] gs[g][k].spec_idx()),
            forall|m: int| 0 <= m < j ==> old(self).reverse@.contains_key(#[trigger] batch@[m].spec_idx()),
        ensures
            final(self).wf(),
            final(self).groups() == gs,
            final(self).group_keys() == old(self).group_keys(),
            final(self).queries() == old(self).queries(),
            final(self).reverse.invalid() == old(self).reverse.invalid(),
            forall|i: nat|
                (forall|m: int| 0 <= m < j ==> batch@[m].spec_idx() != i) ==> #[trigger] final(self).reverse.slot(i)
                    == old(self).reverse.slot(i),
            forall|m: int| 0 <= m < j ==> #[trigger] final(self).reverse.slot(batch@[m].spec_idx()) == final(self).reverse.invalid(),
    {
        let mut m: usize = 0;
        while m < j
            invariant
                self.reverse.wf(),
                m <= j,
                j <= batch@.len(),
                self.reverse.invalid() == old(self).reverse.invalid(),
                self.entities == old(self).entities,
                self.group_sets_to_maps == old(self).group_sets_to_maps,
                self.query_mappings == old(self).query_mappings,
                batch_fresh(dom, batch@, j as int),
                forall|mm: int| m <= mm < j ==> self.reverse@.contains_key(#[trigger] batch@[mm].spec_idx()),
                forall|mm: int| 0 <= mm < m ==> #[trigger] self.reverse.slot(batch@[mm].spec_idx()) == self.reverse.invalid(),
                forall|i: nat|
                    (forall|mm: int| 0 <= mm < m ==> batch@[mm].spec_idx() != i) ==> #[trigger] self.reverse.slot(i)
                        == old(self).reverse.slot(i),
            decreases j - m,
        {
            let ghost prev = self.reverse;
            let removed = self.reverse.remove(batch[m]);
            proof {
                assert(removed is Ok);
                let i = batch@[m as int].spec_idx();
                assert forall|mm: int| m + 1 <= mm < j implies self.reverse@.contains_key(#[trigger] batch@[mm].spec_idx()) by {
                    assert(batch@[mm].spec_idx() != i);
                    assert(prev@.contains_key(batch@[mm].spec_idx()));
                }
                assert forall|mm: int| 0 <= mm < m + 1 implies #[trigger] self.reverse.slot(batch@[mm].spec_idx()) == self.reverse.invalid() by {
                    if mm < m {
                        assert(batch@[mm].spec_idx() != i);
                        assert(prev.slot(batch@[mm].spec_idx()) == prev.invalid());
                    } else {
                        assert(!self.reverse@.contains_key(i));
                    }
                }
                assert forall|ii: nat|
                    (forall|mm: int| 0 <= mm < m + 1 ==> batch@[mm].spec_idx() != ii) implies #[trigger] self.reverse.slot(ii)
                        == old(self).reverse.slot(ii) by {
                    assert(batch@[m as int].spec_idx() != ii);
                    assert(prev.slot(ii) == old(self).reverse.slot(ii));
                }
            }
            m = m + 1;
        }
        assert(old(self).groups().len() == old(self).entities@.len());
        assert(self.entities@.len() == gs.len());
        self.entities[group].truncate(group_size);
        proof {
            assert(self.queries() == old(self).queries());
            assert(self.groups() =~= gs) by {
                assert forall|g: int| 0 <= g < gs.len() implies #[trigger] self.groups()[g] == gs[g] by {
                    if g == group {
                        assert(old(self).groups()[g] == gs[g] + batch@.subrange(0, j as int));
                        assert(self.groups()[g] =~= old(self).groups()[g].subrange(0, group_size as int));
                        assert(self.groups()[g] =~= gs[g]);
                    } else {
                        assert(self.groups()[g] == old(self).groups()[g]);
                    }
                }
            }
            assert forall|g: int, k: int|
                0 <= g < gs.len() && 0 <= k < gs[g].len() implies #[trigger] self.reverse@.contains_key(gs[g][k].spec_idx())
                    && self.reverse@[gs[g][k].spec_idx()].group == g by {
                let x = gs[g][k].spec_idx();
                assert(dom.contains(x));
                assert forall|mm: int| 0 <= mm < j implies batch@[mm].spec_idx() != x by {}
                assert(self.reverse.slot(x) == old(self).reverse.slot(x));
                assert(old(self).groups()[g][k] == gs[g][k]);
                assert(old(self).reverse@.contains_key(old(self).groups()[g][k].spec_idx()));
            }
        }
    }
}

/// Whether `q`, if it includes some storage and excludes none, reads exactly
/// the groups (storage lists `keys`) that hold all the storages it includes.
pub open spec fn tracks_matches(q: QueryRecord, keys: Seq<Seq<usize>>) -> bool {
    (q.includes.len() > 0 && q.excludes.len() == 0) ==> q.include_groups == indices_where(
        keys.len(),
        |g: int| has_all(keys[g], q.includes),
    )
}

/// Whether two queries have the same key.
pub open spec fn same_query(a: QueryRecord, b: QueryRecord) -> bool {
    a.includes == b.includes && a.excludes == b.excludes
}

/// A copy of a list of indices.
fn clone_indices(v: &Vec<usize>) -> (r: Vec<usize>)
    ensures
        r@ == v@,
{
    let mut r: Vec<usize> = Vec::with_capacity(v.len());
    let mut i: usize = 0;
    while i < v.len()
        invariant
            i <= v@.len(),
            r@ == v@.subrange(0, i as int),
        decreases v@.len() - i,
    {
        r.push(v[i]);
        i = i + 1;
    }
    assert(r@ =~= v@);
    r
}

/// Whether the first `n` entities of `batch` have indices outside `dom` and
/// distinct from each other.
pub open spec fn batch_fresh<EntityType: Entity>(dom: Set<nat>, batch: Seq<EntityType>, n: int) -> bool {
    forall|j: int|
        0 <= j < n ==> !dom.contains(#[trigger] batch[j].spec_idx()) && forall|m: int|
            0 <= m < j ==> batch[m].spec_idx() != batch[j].spec_idx()
}

} // verus!
