use indexmap::IndexSet;
use std::collections::hash_map::RandomState;
use vstd::prelude::*;

verus! {

#[verifier::external_type_specification]
#[verifier::external_body]
#[verifier::reject_recursive_types(T)]
#[verifier::reject_recursive_types(S)]
pub struct ExIndexSet<T, S>(IndexSet<T, S>);

/// The lists held by an `IndexSet` of storage-position lists, in insertion
/// order.
pub uninterp spec fn group_set_lists(s: IndexSet<Vec<usize>, RandomState>) -> Seq<Seq<usize>>;

/// `indexmap::IndexSet::new`: an empty set.
#[verifier::external_body]
pub(crate) fn group_sets_new() -> (r: IndexSet<Vec<usize>, RandomState>)
    ensures
        group_set_lists(r) == Seq::<Seq<usize>>::empty(),
{
    IndexSet::new()
}

/// `indexmap::IndexSet::len`: the number of lists held.
#[verifier::external_body]
pub(crate) fn group_sets_len(s: &IndexSet<Vec<usize>, RandomState>) -> (r: usize)
    ensures
        r == group_set_lists(*s).len(),
{
    s.len()
}

/// `indexmap::IndexSet::get_index_of`: the position of the list equal to
/// `list`, if the set holds one.
#[verifier::external_body]
pub(crate) fn group_sets_index_of(s: &IndexSet<Vec<usize>, RandomState>, list: &[usize]) -> (r: Option<usize>)
    ensures
        r is Some ==> r->0 < group_set_lists(*s).len() && group_set_lists(*s)[r->0 as int] == list@,
        r is None ==> !group_set_lists(*s).contains(list@),
{
    s.get_index_of(list)
}

/// `indexmap::IndexSet::get_index`: the list at position `index`, if any.
#[verifier::external_body]
pub(crate) fn group_sets_get(s: &IndexSet<Vec<usize>, RandomState>, index: usize) -> (r: Option<&Vec<usize>>)
    ensures
        index < group_set_lists(*s).len() ==> r is Some && r->0@ == group_set_lists(*s)[index as int],
        index >= group_set_lists(*s).len() ==> r is None,
{
    s.get_index(index)
}

/// `indexmap::IndexSet::insert_full`: where the set already holds a list
/// equal to `list`, its position and `false`, with the set unchanged;
/// otherwise `list` goes at the end, and its position and `true` come back.
#[verifier::external_body]
pub(crate) fn group_sets_insert(s: &mut IndexSet<Vec<usize>, RandomState>, list: Vec<usize>) -> (r: (usize, bool))
    ensures
        group_set_lists(*old(s)).contains(list@) ==> {
            &&& !r.1
            &&& r.0 < group_set_lists(*old(s)).len()
            &&& group_set_lists(*old(s))[r.0 as int] == list@
            &&& group_set_lists(*final(s)) == group_set_lists(*old(s))
        },
        !group_set_lists(*old(s)).contains(list@) ==> {
            &&& r.1
            &&& r.0 == group_set_lists(*old(s)).len()
            &&& group_set_lists(*final(s)) == group_set_lists(*old(s)).push(list@)
        },
{
    s.insert_full(list)
}

} // verus!
