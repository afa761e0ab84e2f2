use std::marker::PhantomData;
use vstd::prelude::*;

verus! {

/// `TypedIndexMap` specific errors.
#[derive(Debug)]
pub enum TypedIndexMapError<K, V, I: TypedIndexMapIndexType = usize> {
    TypedIndexMapFull(I, K, V),
}

/// An unsigned integer type that positions in a `TypedIndexMap` are stored as.
pub trait TypedIndexMapIndexType: Copy + Sized {
    /// The number the value stands for.
    spec fn spec_value(self) -> nat;

    /// The largest value of the type.
    spec fn spec_max() -> nat;

    proof fn lemma_range(a: Self)
        ensures
            a.spec_value() <= Self::spec_max(),
            1 <= Self::spec_max(),
    ;

    /// The largest value of the type.
    fn max_value() -> (r: Self)
        ensures
            r.spec_value() == Self::spec_max(),
    ;

    /// The value as a `usize`, truncated where it does not fit.
    fn to_usize(self) -> (r: usize)
        ensures
            r == self.spec_value() as usize,
    ;

    /// `index` as this type, where it fits.
    fn try_from_usize(index: usize) -> (r: Option<Self>)
        ensures
            r is Some <==> index <= Self::spec_max(),
            r is Some ==> r->0.spec_value() == index,
    ;

    /// `index` as this type, truncated where it does not fit.
    fn from_usize(index: usize) -> (r: Self)
        ensures
            r.spec_value() == (index as nat) % (Self::spec_max() + 1),
    ;
}

impl TypedIndexMapIndexType for u8 {
    open spec fn spec_value(self) -> nat {
        self as nat
    }

    open spec fn spec_max() -> nat {
        u8::MAX as nat
    }

    proof fn lemma_range(a: Self) {
    }

    fn max_value() -> (r: Self) {
        u8::MAX
    }

    fn to_usize(self) -> (r: usize) {
        self as usize
    }

    fn try_from_usize(index: usize) -> (r: Option<Self>) {
        if index <= u8::MAX as usize {
            Some(index as u8)
        } else {
            None
        }
    }

    fn from_usize(index: usize) -> (r: Self) {
        let r = index as u8;
        assert(r == index % 0x100) by (bit_vector)
            requires r == index as u8;
        r
    }
}

impl TypedIndexMapIndexType for u16 {
    open spec fn spec_value(self) -> nat {
        self as nat
    }

    open spec fn spec_max() -> nat {
        u16::MAX as nat
    }

    proof fn lemma_range(a: Self) {
    }

    fn max_value() -> (r: Self) {
        u16::MAX
    }

    fn to_usize(self) -> (r: usize) {
        self as usize
    }

    fn try_from_usize(index: usize) -> (r: Option<Self>) {
        if index <= u16::MAX as usize {
            Some(index as u16)
        } else {
            None
        }
    }

    fn from_usize(index: usize) -> (r: Self) {
        let r = index as u16;
        assert(r == index % 0x1_0000) by (bit_vector)
            requires r == index as u16;
        r
    }
}

impl TypedIndexMapIndexType for u32 {
    open spec fn spec_value(self) -> nat {
        self as nat
    }

    open spec fn spec_max() -> nat {
        u32::MAX as nat
    }

    proof fn lemma_range(a: Self) {
    }

    fn max_value() -> (r: Self) {
        u32::MAX
    }

    fn to_usize(self) -> (r: usize) {
        self as usize
    }

    fn try_from_usize(index: usize) -> (r: Option<Self>) {
        if index as u64 <= u32::MAX as u64 {
            Some(index as u32)
        } else {
            None
        }
    }

    fn from_usize(index: usize) -> (r: Self) {
        let r = index as u32;
        assert(r as u64 == (index as u64) % 0x1_0000_0000) by (bit_vector)
            requires r == index as u32;
        r
    }
}

impl TypedIndexMapIndexType for u64 {
    open spec fn spec_value(self) -> nat {
        self as nat
    }

    open spec fn spec_max() -> nat {
        u64::MAX as nat
    }

    proof fn lemma_range(a: Self) {
    }

    fn max_value() -> (r: Self) {
        u64::MAX
    }

    fn to_usize(self) -> (r: usize) {
        self as usize
    }

    fn try_from_usize(index: usize) -> (r: Option<Self>) {
        Some(index as u64)
    }

    fn from_usize(index: usize) -> (r: Self) {
        proof {
            vstd::arithmetic::div_mod::lemma_small_mod(index as nat, u64::MAX as nat + 1);
        }
        index as u64
    }
}

impl TypedIndexMapIndexType for usize {
    open spec fn spec_value(self) -> nat {
        self as nat
    }

    open spec fn spec_max() -> nat {
        usize::MAX as nat
    }

    proof fn lemma_range(a: Self) {
    }

    fn max_value() -> (r: Self) {
        usize::MAX
    }

    fn to_usize(self) -> (r: usize) {
        self
    }

    fn try_from_usize(index: usize) -> (r: Option<Self>) {
        Some(index)
    }

    fn from_usize(index: usize) -> (r: Self) {
        proof {
            vstd::arithmetic::div_mod::lemma_small_mod(index as nat, usize::MAX as nat + 1);
        }
        index
    }
}

/// A position in a `TypedIndexMap` whose items are tagged `T`.
#[derive(Copy, PartialEq, Eq, Hash, Debug)]
pub struct TypedIndexMapIndex<T, IndexType: TypedIndexMapIndexType = usize>(IndexType, PhantomData<T>);

impl<T, I: TypedIndexMapIndexType> Clone for TypedIndexMapIndex<T, I> {
    fn clone(&self) -> (r: Self)
        ensures
            r.spec_index() == self.spec_index(),
    {
        TypedIndexMapIndex(self.0, PhantomData)
    }
}

impl<T, I: TypedIndexMapIndexType> TypedIndexMapIndex<T, I> {
    /// The position, as a number.
    pub closed spec fn spec_index(&self) -> nat {
        self.0.spec_value()
    }

    /// Position `index`, where the index type can hold it.
    pub fn try_new(index: usize) -> (r: Option<Self>)
        ensures
            r is Some <==> index <= I::spec_max(),
            r is Some ==> r->0.spec_index() == index,
    {
        match I::try_from_usize(index) {
            Some(i) => Some(TypedIndexMapIndex(i, PhantomData)),
            None => None,
        }
    }

    /// Position `index`, truncated to the index type.
    pub fn new(index: usize) -> (r: Self)
        ensures
            r.spec_index() == (index as nat) % (I::spec_max() + 1),
    {
        TypedIndexMapIndex(I::from_usize(index), PhantomData)
    }

    /// The largest position the index type can hold.
    pub fn max() -> (r: I)
        ensures
            r.spec_value() == I::spec_max(),
    {
        I::max_value()
    }

    /// The position as a `usize`.
    pub fn to_usize(self) -> (r: usize)
        ensures
            r == self.spec_index() as usize,
    {
        self.0.to_usize()
    }
}

} // verus!
