use crate::entity::{same_entity, Entity};
use std::marker::PhantomData;
use vstd::prelude::*;

verus! {

/// Allocator of entity handles.
///
/// Slot `i` of `entities` is alive when the handle stored there has index `i`.
/// A dead slot stores, in its index field, the index of the next dead slot of
/// the free list (`0` ends the list); its generation was bumped when it died.
/// `destroyed` holds the head of the free list. Slot `0` is the null entity.
pub struct EntityTable<EntityType: Entity> {
    entities: Vec<EntityType>,
    destroyed: EntityType,
    /// The free list, head first.
    free: Ghost<Seq<nat>>,
}

pub struct EntityTableBuilder<EntityType: Entity> {
    capacity: usize,
    _phantom: PhantomData<EntityType>,
}

/// A handle that an `EntityTable` found alive.
#[derive(Copy, Debug)]
pub struct ValidEntity<'a, EntityType: Entity>(EntityType, PhantomData<&'a ()>);

impl<'a, EntityType: Entity> Clone for ValidEntity<'a, EntityType> {
    fn clone(&self) -> (r: Self)
        ensures
            r == *self,
    {
        *self
    }
}

impl<'a, EntityType: Entity> std::ops::Deref for ValidEntity<'a, EntityType> {
    type Target = EntityType;

    fn deref(&self) -> (r: &EntityType)
        ensures
            *r == self.spec_raw(),
    {
        &self.0
    }
}

impl<'a, EntityType: Entity> ValidEntity<'a, EntityType> {
    pub closed spec fn spec_raw(&self) -> EntityType {
        self.0
    }

    pub fn raw(&self) -> (r: EntityType)
        ensures
            r == self.spec_raw(),
    {
        self.0
    }
}

impl<EntityType: Entity> EntityTableBuilder<EntityType> {
    pub closed spec fn spec_capacity(&self) -> usize {
        self.capacity
    }

    /// A fresh table that holds only the null entity (index 0, generation 0).
    pub fn build(self) -> (r: EntityTable<EntityType>)
        ensures
            r.wf(),
            r.slots().len() == 1,
            r.slots()[0].spec_idx() == 0,
            r.slots()[0].spec_version() == 0,
            r.free_list() == Seq::<nat>::empty(),
    {
        proof {
            EntityType::lemma_bounds();
        }
        let mut entities: Vec<EntityType> = Vec::with_capacity(self.capacity);
        let null = EntityType::new(0);
        entities.push(null);
        let r = EntityTable { entities, destroyed: EntityType::new(0), free: Ghost(Seq::empty()) };
        proof {
            EntityType::lemma_fields(null, null);
        }
        r
    }
}

impl<EntityType: Entity> EntityTable<EntityType> {
    /// The stored handle of every slot.
    pub closed spec fn slots(&self) -> Seq<EntityType> {
        self.entities@
    }

    /// The dead slots that `insert` hands out again, next first.
    pub closed spec fn free_list(&self) -> Seq<nat> {
        self.free@
    }

    /// Whether slot `i` is alive.
    pub open spec fn alive(&self, i: int) -> bool {
        0 <= i < self.slots().len() && self.slots()[i].spec_idx() == i
    }

    /// Whether `entity` is the handle stored in its slot.
    pub open spec fn contains_spec(&self, entity: EntityType) -> bool {
        entity.spec_idx() < self.slots().len() && self.slots()[entity.spec_idx() as int] == entity
    }

    /// Whether `insert` can hand out a handle: a dead slot is free, or a new
    /// index is left.
    pub open spec fn can_insert(&self) -> bool {
        self.free_list().len() > 0 || self.slots().len() < EntityType::idx_bound()
    }

    pub closed spec fn wf(&self) -> bool {
        let s = self.entities@;
        let f = self.free@;
        &&& 1 <= s.len() <= EntityType::idx_bound()
        &&& forall|i: int| 0 <= i < s.len() ==> #[trigger] s[i].spec_idx() < s.len()
        &&& self.destroyed.spec_idx() == (if f.len() == 0 { 0 } else { f[0] })
        &&& self.destroyed.spec_version() == 0
        &&& f.no_duplicates()
        &&& forall|k: int| 0 <= k < f.len() ==> 1 <= #[trigger] f[k] < s.len()
        &&& forall|k: int| 0 <= k < f.len() ==> s[#[trigger] f[k] as int].spec_idx() != f[k]
        &&& forall|k: int| 0 <= k < f.len() - 1 ==> s[#[trigger] f[k] as int].spec_idx() == f[k + 1]
        &&& f.len() > 0 ==> s[f.last() as int].spec_idx() == 0
    }

    /// The free list threads through the dead slots: it starts at the slot
    /// that `destroyed` names, each entry is a dead slot whose stored index
    /// names the next entry, the last one names 0, and no slot appears twice.
    /// Every stored index is a slot of the table.
    pub proof fn lemma_free_list(&self)
        requires
            self.wf(),
        ensures
            1 <= self.slots().len() <= EntityType::idx_bound(),
            self.free_list().no_duplicates(),
            forall|i: int| 0 <= i < self.slots().len() ==> #[trigger] self.slots()[i].spec_idx() < self.slots().len(),
            forall|k: int| 0 <= k < self.free_list().len() ==> {
                let f = #[trigger] self.free_list()[k];
                &&& 1 <= f < self.slots().len()
                &&& !self.alive(f as int)
                &&& self.slots()[f as int].spec_idx() == if k + 1 < self.free_list().len() {
                    self.free_list()[k + 1]
                } else {
                    0
                }
            },
    {
    }

    pub fn builder() -> (r: EntityTableBuilder<EntityType>)
        ensures
            r.spec_capacity() == 0,
    {
        EntityTableBuilder { capacity: 0, _phantom: PhantomData }
    }

    pub fn builder_with_capacity(capacity: usize) -> (r: EntityTableBuilder<EntityType>)
        ensures
            r.spec_capacity() == capacity,
    {
        EntityTableBuilder { capacity, _phantom: PhantomData }
    }

    /// The handle stored in slot `idx`, if the table has that slot.
    pub fn entity_at(&self, idx: usize) -> (r: Option<EntityType>)
        ensures
            r is Some <==> idx < self.slots().len(),
            r is Some ==> r->0 == self.slots()[idx as int],
    {
        if idx < self.entities.len() {
            Some(self.entities[idx])
        } else {
            None
        }
    }

    /// Whether `insert` has nothing left to hand out: the free list is empty
    /// and every index is taken.
    pub fn is_full(&self) -> (r: bool)
        requires
            self.wf(),
        ensures
            r == !self.can_insert(),
    {
        self.destroyed.is_null() && self.entities.len() > EntityType::max_idx()
    }

    pub fn contains(&self, entity: EntityType) -> (r: bool)
        requires
            self.wf(),
        ensures
            r == self.contains_spec(entity),
    {
        let idx = entity.idx();
        (idx < self.entities.len()) && same_entity(self.entities[idx], entity)
    }

    /// Vouches for `entity` where it is alive in this table.
    pub fn valid<'a>(&self, entity: EntityType) -> (r: Option<ValidEntity<'a, EntityType>>)
        requires
            self.wf(),
        ensures
            r is Some <==> self.contains_spec(entity),
            r is Some ==> r->0.spec_raw() == entity,
    {
        if self.contains(entity) {
            Some(ValidEntity(entity, PhantomData))
        } else {
            None
        }
    }

    /// What `insert` does to the table when it hands out `r`: a new slot at
    /// the end where the free list is empty, else the head of the free list
    /// with the generation its slot already carries.
    pub open spec fn inserted(t0: Self, t1: Self, r: EntityType) -> bool {
        &&& t0.free_list().len() == 0 ==> {
            &&& r.spec_idx() == t0.slots().len()
            &&& r.spec_version() == 0
            &&& t1.slots() == t0.slots().push(r)
            &&& t1.free_list() == t0.free_list()
        }
        &&& t0.free_list().len() > 0 ==> {
            let head = t0.free_list()[0];
            &&& r.spec_idx() == head
            &&& r.spec_version() == t0.slots()[head as int].spec_version()
            &&& t1.slots() == t0.slots().update(head as int, r)
            &&& t1.free_list() == t0.free_list().drop_first()
        }
    }

    /// What a successful `delete` of `entity` does to the table: the slot gets
    /// the next generation and the old free-list head as its link, and joins
    /// the front of the free list (the null slot instead empties the list).
    pub open spec fn deleted(t0: Self, t1: Self, entity: EntityType) -> bool {
        let i = entity.spec_idx();
        let d = t1.slots()[i as int];
        &&& t1.slots() == t0.slots().update(i as int, d)
        &&& d.spec_idx() == t0.free_head()
        &&& d.spec_version() == (entity.spec_version() + 1) % EntityType::version_bound()
        &&& i >= 1 ==> t1.free_list() == seq![i].add(t0.free_list())
        &&& i == 0 ==> t1.free_list() == Seq::<nat>::empty()
        &&& !t1.contains_spec(entity)
        &&& forall|e: EntityType|
            e.spec_idx() != i ==> (#[trigger] t1.contains_spec(e) == t0.contains_spec(e))
    }

    /// Hands out a handle: the head of the free list with its bumped
    /// generation, or else a new slot of generation 0 at the end.
    pub fn insert<'a>(&mut self) -> (r: ValidEntity<'a, EntityType>)
        requires
            old(self).wf(),
            old(self).can_insert(),
        ensures
            final(self).wf(),
            !old(self).contains_spec(r.spec_raw()),
            final(self).contains_spec(r.spec_raw()),
            forall|e: EntityType|
                e != r.spec_raw() ==> (#[trigger] final(self).contains_spec(e) == old(self).contains_spec(e)),
            Self::inserted(*old(self), *final(self), r.spec_raw()),
    {
        if self.destroyed.is_null() {
            let entity = EntityType::new(self.entities.len());
            proof {
                EntityType::lemma_fields(entity, entity);
            }
            self.entities.push(entity);
            proof {
                assert forall|e: EntityType|
                    e != entity implies (#[trigger] self.contains_spec(e) == old(self).contains_spec(e)) by {
                    EntityType::lemma_fields(e, entity);
                }
            }
            ValidEntity(entity, PhantomData)
        } else {
            let head = self.destroyed.idx();
            let ghost f = self.free@;
            let mut head_entity = self.entities[head];
            let next = head_entity.idx();
            proof {
                assert(f[0] == head);
                if f.len() > 1 {
                    assert(next == f[1]);
                    assert(1 <= f[1]);
                }
                EntityType::lemma_fields(head_entity, head_entity);
            }
            self.destroyed = EntityType::new(next);
            let entity = head_entity.set_idx(head);
            self.entities[head] = head_entity;
            proof {
                self.free@ = f.drop_first();
                EntityType::lemma_fields(entity, old(self).entities@[head as int]);
                assert(old(self).entities@[head as int].spec_idx() != head);
                assert forall|k: int| 0 <= k < self.free@.len() implies
                    #[trigger] self.free@[k] != head by {
                    assert(f[k + 1] != f[0]);
                }
                assert forall|e: EntityType|
                    e != entity implies (#[trigger] self.contains_spec(e) == old(self).contains_spec(e)) by {
                    if e.spec_idx() == head {
                        EntityType::lemma_fields(e, old(self).entities@[head as int]);
                    }
                }
                assert forall|i: int| 0 <= i < self.entities@.len() implies
                    #[trigger] self.entities@[i].spec_idx() < self.entities@.len() by {
                    assert(old(self).entities@[i].spec_idx() < old(self).entities@.len());
                }
                assert forall|k: int| 0 <= k < self.free@.len() implies
                    self.entities@[#[trigger] self.free@[k] as int].spec_idx() != self.free@[k] by {
                    assert(f[k + 1] == self.free@[k]);
                }
                assert forall|k: int| 0 <= k < self.free@.len() - 1 implies
                    self.entities@[#[trigger] self.free@[k] as int].spec_idx() == self.free@[k + 1] by {
                    assert(f[k + 1] == self.free@[k]);
                }
                if self.free@.len() > 0 {
                    assert(self.free@.last() == f.last());
                }
            }
            ValidEntity(entity, PhantomData)
        }
    }
    /// The index `insert` hands out next from the free list (0 if it is empty).
    pub open spec fn free_head(&self) -> nat {
        if self.free_list().len() == 0 { 0 } else { self.free_list()[0] }
    }

    /// Kills `entity`: its slot gets the next generation and joins the front of
    /// the free list (killing the null entity instead empties the free list).
    ///
    /// Fails with `Err(())` where `entity` is not alive.
    pub fn delete(&mut self, entity: EntityType) -> (r: Result<(), ()>)
        requires
            old(self).wf(),
        ensures
            final(self).wf(),
            r is Err <==> !old(self).contains_spec(entity),
            r is Err ==> *final(self) == *old(self),
            r is Ok ==> Self::deleted(*old(self), *final(self), entity),
    {
        let idx = entity.idx();
        if idx >= self.entities.len() || !same_entity(self.entities[idx], entity) {
            return Err(());
        }
        let ghost f = self.free@;
        let head = self.destroyed.idx();
        let mut e = self.entities[idx];
        proof {
            EntityType::lemma_bounds();
            if f.len() > 0 {
                assert(f[0] < self.entities@.len());
            }
        }
        e.bump_version_with_idx(head);
        self.entities[idx] = e;
        self.destroyed = EntityType::new(idx);
        proof {
            EntityType::lemma_fields(e, entity);
            EntityType::lemma_fields(entity, e);
            let v = entity.spec_version();
            let vb = EntityType::version_bound();
            if v + 1 < vb {
                assert((v + 1) % vb == v + 1) by (nonlinear_arith) requires v + 1 < vb;
            } else {
                assert((v + 1) % vb == 0) by (nonlinear_arith) requires v + 1 == vb;
            }
            assert(e != entity);
            if idx == 0 {
                self.free@ = Seq::empty();
            } else {
                let nf = seq![idx as nat].add(f);
                assert forall|k: int| 0 <= k < f.len() implies #[trigger] f[k] != idx by {
                    assert(old(self).entities@[f[k] as int].spec_idx() != f[k]);
                }
                assert forall|k: int| 0 <= k < nf.len() implies
                    self.entities@[#[trigger] nf[k] as int].spec_idx() != nf[k] by {
                    if k == 0 {
                        if f.len() > 0 {
                            assert(f[0] != idx);
                        }
                    } else {
                        assert(nf[k] == f[k - 1]);
                    }
                }
                assert forall|k: int| 0 <= k < nf.len() - 1 implies
                    self.entities@[#[trigger] nf[k] as int].spec_idx() == nf[k + 1] by {
                    if k > 0 {
                        assert(nf[k] == f[k - 1]);
                        assert(nf[k + 1] == f[k]);
                    }
                }
                assert forall|k: int| 0 <= k < nf.len() implies 1 <= #[trigger] nf[k] < self.entities@.len() by {
                    if k > 0 {
                        assert(nf[k] == f[k - 1]);
                    }
                }
                if f.len() > 0 {
                    assert(nf.last() == f.last());
                }
                assert(nf.no_duplicates()) by {
                    assert forall|a: int, b: int| 0 <= a < b < nf.len() implies nf[a] != nf[b] by {
                        if a > 0 {
                            assert(nf[a] == f[a - 1]);
                        }
                        assert(nf[b] == f[b - 1]);
                    }
                }
                self.free@ = nf;
            }
            assert forall|i: int| 0 <= i < self.entities@.len() implies
                #[trigger] self.entities@[i].spec_idx() < self.entities@.len() by {
                assert(old(self).entities@[i].spec_idx() < old(self).entities@.len());
            }
            assert forall|e2: EntityType|
                e2.spec_idx() != idx implies (#[trigger] self.contains_spec(e2) == old(self).contains_spec(e2)) by {
            }
        }
        Ok(())
    }

    /// Kills every alive entity except the null entity.
    pub fn clear(&mut self) -> (r: Result<(), ()>)
        requires
            old(self).wf(),
        ensures
            final(self).wf(),
            r is Ok,
            final(self).slots().len() == old(self).slots().len(),
            final(self).slots()[0] == old(self).slots()[0],
            forall|i: int|
                1 <= i < old(self).slots().len() ==> !#[trigger] final(self).alive(i),
            forall|e: EntityType| e.spec_idx() != 0 ==> !#[trigger] final(self).contains_spec(e),
            forall|i: int|
                1 <= i < old(self).slots().len() ==> #[trigger] final(self).slots()[i].spec_version() == if old(
                    self,
                ).alive(i) {
                    (old(self).slots()[i].spec_version() + 1) % EntityType::version_bound()
                } else {
                    old(self).slots()[i].spec_version()
                },
            final(self).free_list() == live_slots_desc(old(self).slots(), old(self).slots().len() as int)
                + old(self).free_list(),
    {
        let len = self.entities.len();
        let mut idx: usize = 1;
        while idx < len
            invariant
                self.wf(),
                1 <= idx <= len,
                len == old(self).slots().len(),
                self.slots().len() == len,
                self.slots()[0] == old(self).slots()[0],
                forall|j: int| idx <= j < len ==> #[trigger] self.slots()[j] == old(self).slots()[j],
                forall|j: int| 1 <= j < idx ==> !#[trigger] self.alive(j),
                forall|j: int|
                    1 <= j < idx ==> #[trigger] self.slots()[j].spec_version() == if old(self).alive(j) {
                        (old(self).slots()[j].spec_version() + 1) % EntityType::version_bound()
                    } else {
                        old(self).slots()[j].spec_version()
                    },
                self.free_list() == live_slots_desc(old(self).slots(), idx as int) + old(self).free_list(),
            decreases len - idx,
        {
            let entity = self.entities[idx];
            if entity.idx() == idx {
                let ghost prev = *self;
                proof {
                    if prev.free@.len() > 0 {
                        assert(prev.entities@[prev.free@[0] as int].spec_idx() != prev.free@[0]);
                    }
                }
                let res = self.delete(entity);
                assert(res is Ok);
                proof {
                    assert(old(self).slots()[idx as int] == entity);
                    assert(live_slots_desc(old(self).slots(), idx + 1) == seq![idx as nat] + live_slots_desc(
                        old(self).slots(),
                        idx as int,
                    ));
                    assert(self.free_list() =~= live_slots_desc(old(self).slots(), idx + 1) + old(self).free_list());
                    assert forall|j: int| 1 <= j < idx + 1 implies !#[trigger] self.alive(j) by {
                        if j < idx {
                            assert(!prev.alive(j));
                            assert(self.slots()[j] == prev.slots()[j]);
                        } else {
                            assert(j == idx);
                            assert(entity.spec_idx() == idx);
                            assert(self.slots()[j].spec_idx() == prev.free_head());
                            assert(prev.free_head() != idx);
                        }
                    }
                }
            } else {
                proof {
                    assert(old(self).slots()[idx as int] == entity);
                    assert(live_slots_desc(old(self).slots(), idx + 1) == live_slots_desc(
                        old(self).slots(),
                        idx as int,
                    ));
                }
            }
            idx = idx + 1;
        }
        proof {
            assert forall|e: EntityType| e.spec_idx() != 0 implies !#[trigger] self.contains_spec(e) by {
                if e.spec_idx() < len {
                    assert(!self.alive(e.spec_idx() as int));
                }
            }
        }
        Ok(())
    }
}

/// The live slots among `1..n` of `slots`, highest index first.
pub open spec fn live_slots_desc<EntityType: Entity>(slots: Seq<EntityType>, n: int) -> Seq<nat>
    decreases n,
{
    if n <= 1 {
        Seq::empty()
    } else {
        let rest = live_slots_desc(slots, n - 1);
        if slots[n - 1].spec_idx() == n - 1 {
            seq![(n - 1) as nat] + rest
        } else {
            rest
        }
    }
}

/// `live_slots_desc` holds exactly the live slots below `n`, and starts with
/// the highest of them.
proof fn lemma_live_slots_desc<EntityType: Entity>(slots: Seq<EntityType>, n: int)
    requires
        n <= slots.len(),
    ensures
        forall|x: nat|
            #[trigger] live_slots_desc(slots, n).contains(x) <==> (1 <= x < n && slots[x as int].spec_idx()
                == x),
        live_slots_desc(slots, n).len() > 0 ==> {
            let h = live_slots_desc(slots, n)[0];
            &&& 1 <= h < n
            &&& slots[h as int].spec_idx() == h
            &&& forall|k: int| h < k < n ==> slots[k].spec_idx() != k
        },
    decreases n,
{
    if n > 1 {
        lemma_live_slots_desc(slots, n - 1);
        let rest = live_slots_desc(slots, n - 1);
        if slots[n - 1].spec_idx() == n - 1 {
            let l = seq![(n - 1) as nat] + rest;
            assert forall|x: nat| #[trigger] l.contains(x) <==> (1 <= x < n && slots[x as int].spec_idx() == x) by {
                if l.contains(x) {
                    let j = choose|j: int| 0 <= j < l.len() && l[j] == x;
                    if j > 0 {
                        assert(rest[j - 1] == x);
                        assert(rest.contains(x));
                    }
                }
                if 1 <= x < n && slots[x as int].spec_idx() == x {
                    if x == n - 1 {
                        assert(l[0] == x);
                    } else {
                        assert(rest.contains(x));
                        let j = choose|j: int| 0 <= j < rest.len() && rest[j] == x;
                        assert(l[j + 1] == x);
                    }
                }
            }
        } else {
            if rest.len() > 0 {
                assert(rest.contains(rest[0]));
            }
        }
    }
}

/// Clearing a table puts every slot it kills on the free list, ahead of the
/// slots that were already there, and loses none of those: afterwards the
/// free list holds exactly the old free list and the formerly live slots
/// other than the null one. Where some such slot was live, the next insert
/// reuses the highest of them, with its generation bumped, instead of
/// growing the table.
pub proof fn lemma_clear_recycles_live_slots<EntityType: Entity>(
    t0: EntityTable<EntityType>,
    t1: EntityTable<EntityType>,
    t2: EntityTable<EntityType>,
    r: EntityType,
)
    requires
        t0.wf(),
        t1.slots().len() == t0.slots().len(),
        forall|i: int|
            1 <= i < t0.slots().len() ==> #[trigger] t1.slots()[i].spec_version() == if t0.alive(i) {
                (t0.slots()[i].spec_version() + 1) % EntityType::version_bound()
            } else {
                t0.slots()[i].spec_version()
            },
        t1.free_list() == live_slots_desc(t0.slots(), t0.slots().len() as int) + t0.free_list(),
        EntityTable::inserted(t1, t2, r),
    ensures
        forall|k: int| 1 <= k < t0.slots().len() && #[trigger] t0.alive(k) ==> t1.free_list().contains(k as nat),
        forall|k: nat| t0.free_list().contains(k) ==> #[trigger] t1.free_list().contains(k),
        forall|k: nat|
            #[trigger] t1.free_list().contains(k) ==> t0.free_list().contains(k) || (1 <= k < t0.slots().len()
                && t0.alive(k as int)),
        t1.free_list().len() == t0.free_list().len() + live_slots_desc(t0.slots(), t0.slots().len() as int).len(),
        (exists|k: int| 1 <= k < t0.slots().len() && #[trigger] t0.alive(k)) ==> {
            &&& r.spec_idx() < t0.slots().len()
            &&& t0.alive(r.spec_idx() as int)
            &&& forall|k: int| r.spec_idx() < k < t0.slots().len() ==> !#[trigger] t0.alive(k)
            &&& r.spec_version() == (t0.slots()[r.spec_idx() as int].spec_version() + 1)
                % EntityType::version_bound()
            &&& t2.contains_spec(r)
        },
{
    let n = t0.slots().len() as int;
    let l = live_slots_desc(t0.slots(), n);
    let f = t0.free_list();
    lemma_live_slots_desc(t0.slots(), n);
    assert forall|k: int| 1 <= k < n && #[trigger] t0.alive(k) implies t1.free_list().contains(k as nat) by {
        assert(l.contains(k as nat));
        let j = choose|j: int| 0 <= j < l.len() && l[j] == k as nat;
        assert(t1.free_list()[j] == k as nat);
    }
    assert forall|k: nat| f.contains(k) implies #[trigger] t1.free_list().contains(k) by {
        let j = choose|j: int| 0 <= j < f.len() && f[j] == k;
        assert(t1.free_list()[l.len() + j] == k);
    }
    assert forall|k: nat| #[trigger] t1.free_list().contains(k) implies f.contains(k) || (1 <= k < n
        && t0.alive(k as int)) by {
        let j = choose|j: int| 0 <= j < t1.free_list().len() && t1.free_list()[j] == k;
        if j < l.len() {
            assert(l[j] == k);
            assert(l.contains(k));
        } else {
            assert(f[j - l.len()] == k);
            assert(f.contains(k));
        }
    }
    if exists|k: int| 1 <= k < n && #[trigger] t0.alive(k) {
        let k = choose|k: int| 1 <= k < n && #[trigger] t0.alive(k);
        assert(l.contains(k as nat));
        assert(l.len() > 0);
        let h = l[0];
        assert(t1.free_list()[0] == h);
        assert(r.spec_idx() == h);
        assert forall|kk: int| h < kk < n implies !#[trigger] t0.alive(kk) by {}
    }
}

/// Deleting a live entity and then inserting hands out the entity's slot
/// again with the next generation: a handle that is alive, while the deleted
/// one stays dead.
pub proof fn lemma_delete_then_insert_reuses_slot<EntityType: Entity>(
    t0: EntityTable<EntityType>,
    t1: EntityTable<EntityType>,
    t2: EntityTable<EntityType>,
    e: EntityType,
    r: EntityType,
)
    requires
        t0.wf(),
        t0.contains_spec(e),
        e.spec_idx() >= 1,
        EntityTable::deleted(t0, t1, e),
        EntityTable::inserted(t1, t2, r),
    ensures
        r.spec_idx() == e.spec_idx(),
        r.spec_version() == (e.spec_version() + 1) % EntityType::version_bound(),
        r != e,
        t2.contains_spec(r),
        !t2.contains_spec(e),
{
    EntityType::lemma_fields(r, e);
    EntityType::lemma_fields(e, r);
    let v = e.spec_version();
    let vb = EntityType::version_bound();
    if v + 1 < vb {
        assert((v + 1) % vb == v + 1) by (nonlinear_arith) requires v + 1 < vb;
    } else {
        assert((v + 1) % vb == 0) by (nonlinear_arith) requires v + 1 == vb;
    }
    assert(t1.free_list()[0] == e.spec_idx());
}

} // verus!
