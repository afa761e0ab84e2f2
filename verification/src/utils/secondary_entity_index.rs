use crate::entity::{same_entity, Entity};
use std::marker::PhantomData;
use vstd::prelude::*;

verus! {

/// Number of slots in one page of the index.
pub const PER_PAGE: usize = 256;

#[derive(Debug, PartialEq, Eq)]
pub enum SecondaryEntityIndexErrors<EntityType: Entity> {
    IndexAlreadyExists(EntityType),
    IndexDoesNotExist(EntityType),
}

/// A sparse, paged map from an entity's index to a value of `IndexType`.
///
/// A slot that holds `invalid_index` is empty. Pages of `PER_PAGE` slots are
/// allocated on first use.
pub struct SecondaryEntityIndex<EntityType: Entity, IndexType: Copy + PartialEq> {
    invalid_index: IndexType,
    pages: Vec<Option<Vec<IndexType>>>,
    _phantom: PhantomData<EntityType>,
}

/// Page of an entity index.
pub open spec fn page_of(i: nat) -> nat {
    i / (PER_PAGE as nat)
}

/// Offset of an entity index inside its page.
pub open spec fn offset_of(i: nat) -> nat {
    i % (PER_PAGE as nat)
}

impl<EntityType: Entity, IndexType: Copy + PartialEq> SecondaryEntityIndex<EntityType, IndexType> {
    /// The value stored in slot `i`, or `invalid_index` where no page holds it.
    pub closed spec fn slot(&self, i: nat) -> IndexType {
        let p = page_of(i);
        if p < self.pages@.len() && self.pages@[p as int] is Some {
            self.pages@[p as int]->0@[offset_of(i) as int]
        } else {
            self.invalid_index
        }
    }

    /// The value that marks an empty slot.
    pub closed spec fn invalid(&self) -> IndexType {
        self.invalid_index
    }

    /// The occupied slots: entity index to stored value.
    pub open spec fn view(&self) -> Map<nat, IndexType> {
        Map::new(|i: nat| self.slot(i) != self.invalid(), |i: nat| self.slot(i))
    }

    pub closed spec fn wf(&self) -> bool {
        &&& vstd::laws_eq::obeys_concrete_eq::<IndexType>()
        &&& forall|p: int|
            0 <= p < self.pages@.len() && #[trigger] self.pages@[p] is Some ==> self.pages@[p]->0@.len()
                == PER_PAGE
    }

    pub fn new(invalid_index: IndexType) -> (r: Self)
        requires
            vstd::laws_eq::obeys_concrete_eq::<IndexType>(),
        ensures
            r.wf(),
            r.invalid() == invalid_index,
            r@ == Map::<nat, IndexType>::empty(),
    {
        let r = Self { invalid_index, pages: Vec::new(), _phantom: PhantomData };
        assert(r@ =~= Map::<nat, IndexType>::empty());
        r
    }

    fn page(entity: EntityType) -> (r: usize)
        ensures
            r == page_of(entity.spec_idx()),
    {
        entity.idx() / PER_PAGE
    }

    fn offset(entity: EntityType) -> (r: u8)
        ensures
            r == offset_of(entity.spec_idx()),
    {
        let i = entity.idx();
        let r = i & (PER_PAGE - 1);
        assert(r == i % 256) by (bit_vector)
            requires r == i & 255usize;
        r as u8
    }

    fn page_offset(entity: EntityType) -> (r: (usize, u8))
        ensures
            r.0 == page_of(entity.spec_idx()),
            r.1 == offset_of(entity.spec_idx()),
    {
        (Self::page(entity), Self::offset(entity))
    }

    proof fn lemma_slot_split(i: nat, j: nat)
        ensures
            i != j ==> (page_of(i) != page_of(j) || offset_of(i) != offset_of(j)),
            offset_of(i) < PER_PAGE,
    {
        if i != j && page_of(i) == page_of(j) && offset_of(i) == offset_of(j) {
            assert(i == page_of(i) * 256 + offset_of(i));
            assert(j == page_of(j) * 256 + offset_of(j));
        }
    }

    /// Reserves the slot of `entity` and hands it out for writing.
    ///
    /// Fails with `IndexAlreadyExists` where the slot is occupied.
    pub fn insert_mut(&mut self, entity: EntityType) -> (r: Result<
        &mut IndexType,
        SecondaryEntityIndexErrors<EntityType>,
    >)
        requires
            old(self).wf(),
        ensures
            final(self).wf(),
            final(self).invalid() == old(self).invalid(),
            old(self)@.contains_key(entity.spec_idx()) <==> r is Err,
            r is Err ==> r == Err::<&mut IndexType, _>(SecondaryEntityIndexErrors::IndexAlreadyExists(entity))
                && final(self)@ == old(self)@,
            r is Err ==> (forall|i: nat| #[trigger] final(self).slot(i) == old(self).slot(i)),
            r is Ok ==> *r->Ok_0 == old(self).invalid(),
            r is Ok ==> (forall|i: nat| i != entity.spec_idx() ==> #[trigger] final(self).slot(i) == old(self).slot(i)),
            r is Ok ==> final(self).slot(entity.spec_idx()) == *final(r->Ok_0),
    {
        let (page_idx, offset) = Self::page_offset(entity);
        let inv = self.invalid_index;
        proof {
            Self::lemma_slot_split(entity.spec_idx(), entity.spec_idx());
        }
        self.ensure_page(page_idx);
        let existing = match &self.pages[page_idx] {
            Some(page) => page[offset as usize],
            None => inv,
        };
        proof {
            reveal(vstd::laws_eq::obeys_concrete_eq);
        }
        if existing != inv {
            return Err(SecondaryEntityIndexErrors::IndexAlreadyExists(entity));
        }
        let ghost mid = *self;
        proof {
            assert forall|i: nat| #![trigger page_of(i)] i != entity.spec_idx() implies
                (page_of(i) != page_idx || offset_of(i) != offset as nat) && mid.slot(i) == old(self).slot(i) by {
                Self::lemma_slot_split(i, entity.spec_idx());
            }
        }
        assert(mid.pages@[page_idx as int] is Some);
        let page = match &mut self.pages[page_idx] {
            Some(page) => page,
            None => { return Err(SecondaryEntityIndexErrors::IndexAlreadyExists(entity)); }
        };
        let location = &mut page[offset as usize];
        Ok(location)
    }

    /// Makes sure that page `page_idx` exists, without changing any slot.
    fn ensure_page(&mut self, page_idx: usize)
        requires
            old(self).wf(),
        ensures
            final(self).wf(),
            final(self).invalid() == old(self).invalid(),
            page_idx < final(self).pages@.len(),
            final(self).pages@[page_idx as int] is Some,
            forall|i: nat| #[trigger] final(self).slot(i) == old(self).slot(i),
            final(self)@ == old(self)@,
    {
        while self.pages.len() <= page_idx
            invariant
                self.wf(),
                self.invalid() == old(self).invalid(),
                forall|i: nat| #[trigger] self.slot(i) == old(self).slot(i),
            decreases page_idx + 1 - self.pages.len(),
        {
            let ghost prev = *self;
            self.pages.push(None);
            assert forall|i: nat| #[trigger] self.slot(i) == old(self).slot(i) by {
                assert(prev.slot(i) == old(self).slot(i));
                if page_of(i) < prev.pages@.len() {
                    assert(self.pages@[page_of(i) as int] == prev.pages@[page_of(i) as int]);
                }
            }
        }
        if self.pages[page_idx].is_none() {
            let mut page: Vec<IndexType> = Vec::with_capacity(PER_PAGE);
            let mut k: usize = 0;
            while k < PER_PAGE
                invariant
                    k <= PER_PAGE,
                    page@.len() == k,
                    forall|j: int| 0 <= j < k ==> page@[j] == self.invalid_index,
                decreases PER_PAGE - k,
            {
                page.push(self.invalid_index);
                k = k + 1;
            }
            let ghost prev = *self;
            self.pages[page_idx] = Some(page);
            assert forall|i: nat| #[trigger] self.slot(i) == old(self).slot(i) by {
                assert(prev.slot(i) == old(self).slot(i));
                Self::lemma_slot_split(i, i);
                if page_of(i) != page_idx && page_of(i) < prev.pages@.len() {
                    assert(self.pages@[page_of(i) as int] == prev.pages@[page_of(i) as int]);
                }
            }
        }
        assert(self@ =~= old(self)@);
    }
    /// The value stored for `entity`'s index.
    ///
    /// Fails with `IndexDoesNotExist` where the slot is empty.
    pub fn get(&self, entity: EntityType) -> (r: Result<&IndexType, SecondaryEntityIndexErrors<EntityType>>)
        requires
            self.wf(),
        ensures
            self@.contains_key(entity.spec_idx()) <==> r is Ok,
            r is Ok ==> *r->Ok_0 == self@[entity.spec_idx()],
            r is Err ==> r == Err::<&IndexType, _>(SecondaryEntityIndexErrors::IndexDoesNotExist(entity)),
    {
        let (page_idx, offset) = Self::page_offset(entity);
        proof {
            Self::lemma_slot_split(entity.spec_idx(), entity.spec_idx());
            reveal(vstd::laws_eq::obeys_concrete_eq);
        }
        if page_idx >= self.pages.len() {
            return Err(SecondaryEntityIndexErrors::IndexDoesNotExist(entity));
        }
        let page = if let Some(page) = &self.pages[page_idx] {
            page
        } else {
            return Err(SecondaryEntityIndexErrors::IndexDoesNotExist(entity));
        };
        let location = &page[offset as usize];
        if *location == self.invalid_index {
            return Err(SecondaryEntityIndexErrors::IndexDoesNotExist(entity));
        }
        Ok(location)
    }

    /// The value stored for `entity`'s index, handed out for writing.
    ///
    /// Fails with `IndexDoesNotExist` where the slot is empty.
    pub fn get_mut(&mut self, entity: EntityType) -> (r: Result<
        &mut IndexType,
        SecondaryEntityIndexErrors<EntityType>,
    >)
        requires
            old(self).wf(),
        ensures
            final(self).wf(),
            final(self).invalid() == old(self).invalid(),
            old(self)@.contains_key(entity.spec_idx()) <==> r is Ok,
            r is Err ==> r == Err::<&mut IndexType, _>(SecondaryEntityIndexErrors::IndexDoesNotExist(entity))
                && *final(self) == *old(self),
            r is Ok ==> *r->Ok_0 == old(self)@[entity.spec_idx()],
            r is Ok ==> (forall|i: nat| i != entity.spec_idx() ==> #[trigger] final(self).slot(i) == old(self).slot(i)),
            r is Ok ==> final(self).slot(entity.spec_idx()) == *final(r->Ok_0),
    {
        let (page_idx, offset) = Self::page_offset(entity);
        proof {
            Self::lemma_slot_split(entity.spec_idx(), entity.spec_idx());
            reveal(vstd::laws_eq::obeys_concrete_eq);
        }
        if page_idx >= self.pages.len() {
            return Err(SecondaryEntityIndexErrors::IndexDoesNotExist(entity));
        }
        if self.pages[page_idx].is_none() {
            return Err(SecondaryEntityIndexErrors::IndexDoesNotExist(entity));
        }
        let existing = match &self.pages[page_idx] {
            Some(page) => page[offset as usize],
            None => self.invalid_index,
        };
        if existing == self.invalid_index {
            return Err(SecondaryEntityIndexErrors::IndexDoesNotExist(entity));
        }
        proof {
            assert forall|i: nat| #![trigger page_of(i)] i != entity.spec_idx() implies
                (page_of(i) != page_idx || offset_of(i) != offset as nat) by {
                Self::lemma_slot_split(i, entity.spec_idx());
            }
        }
        let page = match &mut self.pages[page_idx] {
            Some(page) => page,
            None => { return Err(SecondaryEntityIndexErrors::IndexDoesNotExist(entity)); }
        };
        let location = &mut page[offset as usize];
        Ok(location)
    }

    /// Empties the slot of `entity` and returns what it held.
    ///
    /// Fails with `IndexDoesNotExist` where the slot is empty.
    pub fn remove(&mut self, entity: EntityType) -> (r: Result<IndexType, SecondaryEntityIndexErrors<EntityType>>)
        requires
            old(self).wf(),
        ensures
            final(self).wf(),
            final(self).invalid() == old(self).invalid(),
            old(self)@.contains_key(entity.spec_idx()) <==> r is Ok,
            r is Err ==> r == Err::<IndexType, _>(SecondaryEntityIndexErrors::IndexDoesNotExist(entity))
                && *final(self) == *old(self),
            r is Ok ==> r->Ok_0 == old(self)@[entity.spec_idx()],
            r is Ok ==> final(self)@ == old(self)@.remove(entity.spec_idx()),
            r is Ok ==> (forall|i: nat| i != entity.spec_idx() ==> #[trigger] final(self).slot(i) == old(self).slot(i)),
    {
        let invalid_index = self.invalid_index;
        match self.get_mut(entity) {
            Ok(location) => {
                let ret = *location;
                *location = invalid_index;
                proof {
                    assert(self@ =~= old(self)@.remove(entity.spec_idx()));
                }
                Ok(ret)
            },
            Err(e) => Err(e),
        }
    }
}

/// Writing a valid value into the slot that `insert_mut` handed out makes the
/// index map the entity's index to that value, and leaves every other entry.
pub proof fn lemma_written_slot<EntityType: Entity, IndexType: Copy + PartialEq>(
    s0: SecondaryEntityIndex<EntityType, IndexType>,
    s1: SecondaryEntityIndex<EntityType, IndexType>,
    i: nat,
    v: IndexType,
)
    requires
        !s0@.contains_key(i),
        v != s0.invalid(),
        s1.invalid() == s0.invalid(),
        s1.slot(i) == v,
        forall|j: nat| j != i ==> #[trigger] s1.slot(j) == s0.slot(j),
    ensures
        s1@ == s0@.insert(i, v),
        s1@.contains_key(i),
        s1@[i] == v,
{
    assert(s1@ =~= s0@.insert(i, v));
}

} // verus!
