use vstd::prelude::*;

verus! {

/// An entity handle: an index into a table together with a generation (version)
/// that is bumped each time the slot at that index is recycled.
///
/// The index `0` is the null entity.
pub trait Entity: Copy + PartialEq + Sized {
    /// The index part of the handle.
    spec fn spec_idx(self) -> nat;

    /// The generation part of the handle.
    spec fn spec_version(self) -> nat;

    /// One past the largest index a handle can hold.
    spec fn idx_bound() -> nat;

    /// One past the largest generation a handle can hold.
    spec fn version_bound() -> nat;

    /// A handle is fully described by its index and generation, both in range.
    proof fn lemma_fields(a: Self, b: Self)
        ensures
            a.spec_idx() < Self::idx_bound(),
            a.spec_version() < Self::version_bound(),
            2 <= Self::idx_bound() <= usize::MAX + 1,
            2 <= Self::version_bound(),
            (a == b) <==> (a.spec_idx() == b.spec_idx() && a.spec_version() == b.spec_version()),
    ;

    /// The index and generation ranges leave room for the null entity and for
    /// at least one recycling.
    proof fn lemma_bounds()
        ensures
            2 <= Self::idx_bound() <= usize::MAX + 1,
            2 <= Self::version_bound(),
    ;

    /// `==` on handles is equality of the values.
    proof fn lemma_concrete_eq()
        ensures
            vstd::laws_eq::obeys_concrete_eq::<Self>(),
    ;

    /// The largest index a handle can hold.
    fn max_idx() -> (r: usize)
        ensures
            r + 1 == Self::idx_bound(),
    ;

    /// A handle of generation 0 at `idx`.
    fn new(idx: usize) -> (r: Self)
        requires
            idx < Self::idx_bound(),
        ensures
            r.spec_idx() == idx,
            r.spec_version() == 0,
    ;

    fn idx(self) -> (r: usize)
        ensures
            r == self.spec_idx(),
    ;

    /// Whether this is the null handle (index 0).
    fn is_null(self) -> (r: bool)
        ensures
            r == (self.spec_idx() == 0),
    ;

    /// Replaces the index, keeping the generation, and returns the new handle.
    fn set_idx(&mut self, idx: usize) -> (r: Self)
        requires
            idx < Self::idx_bound(),
        ensures
            final(self).spec_idx() == idx,
            final(self).spec_version() == old(self).spec_version(),
            r == *final(self),
    ;

    /// Replaces the index and advances the generation by one, wrapping to 0
    /// past the largest generation.
    fn bump_version_with_idx(&mut self, idx: usize)
        requires
            idx < Self::idx_bound(),
        ensures
            final(self).spec_idx() == idx,
            final(self).spec_version() == (old(self).spec_version() + 1) % Self::version_bound(),
    ;
}

/// Spec equality of two handles, checked in executable code.
pub fn same_entity<E: Entity>(a: E, b: E) -> (r: bool)
    ensures
        r == (a == b),
{
    proof {
        E::lemma_concrete_eq();
        reveal(vstd::laws_eq::obeys_concrete_eq);
    }
    a == b
}

/// `u64` handle: index in the low 32 bits, generation in the high 32 bits.
impl Entity for u64 {
    open spec fn spec_idx(self) -> nat {
        (self % 0x1_0000_0000) as nat
    }

    open spec fn spec_version(self) -> nat {
        (self / 0x1_0000_0000) as nat
    }

    open spec fn idx_bound() -> nat {
        0x1_0000_0000
    }

    open spec fn version_bound() -> nat {
        0x1_0000_0000
    }

    proof fn lemma_fields(a: Self, b: Self) {
    }

    proof fn lemma_bounds() {
    }

    proof fn lemma_concrete_eq() {
    }

    fn max_idx() -> (r: usize) {
        0xFFFF_FFFF
    }

    fn new(idx: usize) -> (r: Self) {
        idx as u64
    }

    fn idx(self) -> (r: usize) {
        let r = self & 0xFFFF_FFFF;
        assert(r == self % 0x1_0000_0000) by (bit_vector)
            requires r == self & 0xFFFF_FFFF;
        r as usize
    }

    fn is_null(self) -> (r: bool) {
        let r = self & 0xFFFF_FFFF;
        assert(r == self % 0x1_0000_0000) by (bit_vector)
            requires r == self & 0xFFFF_FFFF;
        r == 0
    }

    fn set_idx(&mut self, idx: usize) -> (r: Self) {
        let i = idx as u64;
        let v = *self & 0xFFFF_FFFF_0000_0000;
        let n = v | i;
        let o = *self;
        assert(n % 0x1_0000_0000 == i && n / 0x1_0000_0000 == o / 0x1_0000_0000) by (bit_vector)
            requires v == o & 0xFFFF_FFFF_0000_0000, n == v | i, i < 0x1_0000_0000;
        *self = n;
        n
    }

    fn bump_version_with_idx(&mut self, idx: usize) {
        let i = idx as u64;
        let o = *self;
        let ver = o >> 32;
        assert(ver == o / 0x1_0000_0000) by (bit_vector)
            requires ver == o >> 32;
        let nv = if ver == 0xFFFF_FFFF { 0u64 } else { ver + 1 };
        let n = (nv << 32) | i;
        assert(n % 0x1_0000_0000 == i && n / 0x1_0000_0000 == nv) by (bit_vector)
            requires n == (nv << 32) | i, i < 0x1_0000_0000, nv < 0x1_0000_0000;
        *self = n;
    }
}

/// `u32` handle: index in the low 20 bits, generation in the high 12 bits.
impl Entity for u32 {
    open spec fn spec_idx(self) -> nat {
        (self % 0x10_0000) as nat
    }

    open spec fn spec_version(self) -> nat {
        (self / 0x10_0000) as nat
    }

    open spec fn idx_bound() -> nat {
        0x10_0000
    }

    open spec fn version_bound() -> nat {
        0x1000
    }

    proof fn lemma_fields(a: Self, b: Self) {
    }

    proof fn lemma_bounds() {
    }

    proof fn lemma_concrete_eq() {
    }

    fn max_idx() -> (r: usize) {
        0x000F_FFFF
    }

    fn new(idx: usize) -> (r: Self) {
        idx as u32
    }

    fn idx(self) -> (r: usize) {
        let r = self & 0x000F_FFFF;
        assert(r == self % 0x10_0000) by (bit_vector)
            requires r == self & 0x000F_FFFF;
        r as usize
    }

    fn is_null(self) -> (r: bool) {
        let r = self & 0x000F_FFFF;
        assert(r == self % 0x10_0000) by (bit_vector)
            requires r == self & 0x000F_FFFF;
        r == 0
    }

    fn set_idx(&mut self, idx: usize) -> (r: Self) {
        let i = idx as u32;
        let v = *self & 0xFFF0_0000;
        let n = v | i;
        let o = *self;
        assert(n % 0x10_0000 == i && n / 0x10_0000 == o / 0x10_0000) by (bit_vector)
            requires v == o & 0xFFF0_0000, n == v | i, i < 0x10_0000;
        *self = n;
        n
    }

    fn bump_version_with_idx(&mut self, idx: usize) {
        let i = idx as u32;
        let o = *self;
        let ver = o >> 20;
        assert(ver == o / 0x10_0000) by (bit_vector)
            requires ver == o >> 20;
        let nv = if ver == 0xFFF { 0u32 } else { ver + 1 };
        let n = (nv << 20) | i;
        assert(n % 0x10_0000 == i && n / 0x10_0000 == nv) by (bit_vector)
            requires n == (nv << 20) | i, i < 0x10_0000, nv < 0x1000;
        *self = n;
    }
}

/// `u16` handle: index in the low 12 bits, generation in the high 4 bits.
impl Entity for u16 {
    open spec fn spec_idx(self) -> nat {
        (self % 0x1000) as nat
    }

    open spec fn spec_version(self) -> nat {
        (self / 0x1000) as nat
    }

    open spec fn idx_bound() -> nat {
        0x1000
    }

    open spec fn version_bound() -> nat {
        0x10
    }

    proof fn lemma_fields(a: Self, b: Self) {
    }

    proof fn lemma_bounds() {
    }

    proof fn lemma_concrete_eq() {
    }

    fn max_idx() -> (r: usize) {
        0x0FFF
    }

    fn new(idx: usize) -> (r: Self) {
        idx as u16
    }

    fn idx(self) -> (r: usize) {
        let r = self & 0x0FFF;
        assert(r == self % 0x1000) by (bit_vector)
            requires r == self & 0x0FFF;
        r as usize
    }

    fn is_null(self) -> (r: bool) {
        let r = self & 0x0FFF;
        assert(r == self % 0x1000) by (bit_vector)
            requires r == self & 0x0FFF;
        r == 0
    }

    fn set_idx(&mut self, idx: usize) -> (r: Self) {
        let i = idx as u16;
        let v = *self & 0xF000;
        let n = v | i;
        let o = *self;
        assert(n % 0x1000 == i && n / 0x1000 == o / 0x1000) by (bit_vector)
            requires v == o & 0xF000, n == v | i, i < 0x1000;
        *self = n;
        n
    }

    fn bump_version_with_idx(&mut self, idx: usize) {
        let i = idx as u16;
        let o = *self;
        let ver = o >> 12;
        assert(ver == o / 0x1000) by (bit_vector)
            requires ver == o >> 12;
        let nv = if ver == 0xF { 0u16 } else { ver + 1 };
        let n = (nv << 12) | i;
        assert(n % 0x1000 == i && n / 0x1000 == nv) by (bit_vector)
            requires n == (nv << 12) | i, i < 0x1000, nv < 0x10;
        *self = n;
    }
}

} // verus!
