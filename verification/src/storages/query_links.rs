use crate::storages::sparse_typed_paged_map::{QueryRecord, QueryTypedPagedLink};
use indexmap::IndexMap;
use std::collections::hash_map::RandomState;
use vstd::prelude::*;

verus! {

#[verifier::external_type_specification]
#[verifier::external_body]
#[verifier::reject_recursive_types(K)]
#[verifier::reject_recursive_types(V)]
#[verifier::reject_recursive_types(S)]
pub struct ExIndexMap<K, V, S>(IndexMap<K, V, S>);

/// The record of a query key `(includes, excludes)` with its link.
pub open spec fn query_record(key: (Vec<usize>, Vec<usize>), link: QueryTypedPagedLink) -> QueryRecord {
    QueryRecord {
        includes: key.0@,
        excludes: key.1@,
        include_groups: link.include_groups@,
        exclude_groups: link.exclude_groups@,
        include_maps: link.include_maps@,
    }
}

/// `rec` with the groups and storages of `link`.
pub open spec fn with_link(rec: QueryRecord, link: QueryTypedPagedLink) -> QueryRecord {
    QueryRecord {
        include_groups: link.include_groups@,
        exclude_groups: link.exclude_groups@,
        include_maps: link.include_maps@,
        ..rec
    }
}

/// The entries of a map from query keys to links, in insertion order.
pub uninterp spec fn query_link_records(
    m: IndexMap<(Vec<usize>, Vec<usize>), QueryTypedPagedLink, RandomState>,
) -> Seq<QueryRecord>;

/// `indexmap::IndexMap::new`: an empty map.
#[verifier::external_body]
pub(crate) fn query_links_new() -> (r: IndexMap<(Vec<usize>, Vec<usize>), QueryTypedPagedLink, RandomState>)
    ensures
        query_link_records(r) == Seq::<QueryRecord>::empty(),
{
    IndexMap::new()
}

/// `indexmap::IndexMap::len`: the number of entries.
#[verifier::external_body]
pub(crate) fn query_links_len(m: &IndexMap<(Vec<usize>, Vec<usize>), QueryTypedPagedLink, RandomState>) -> (r: usize)
    ensures
        r == query_link_records(*m).len(),
{
    m.len()
}

/// `indexmap::IndexMap::get_index_of`: the position of the entry whose key
/// equals `key`, if there is one.
#[verifier::external_body]
pub(crate) fn query_links_index_of(
    m: &IndexMap<(Vec<usize>, Vec<usize>), QueryTypedPagedLink, RandomState>,
    key: &(Vec<usize>, Vec<usize>),
) -> (r: Option<usize>)
    ensures
        r is Some ==> r->0 < query_link_records(*m).len() && query_link_records(*m)[r->0 as int].includes
            == key.0@ && query_link_records(*m)[r->0 as int].excludes == key.1@,
        r is None ==> forall|i: int|
            0 <= i < query_link_records(*m).len() ==> !(#[trigger] query_link_records(*m)[i].includes == key.0@
                && query_link_records(*m)[i].excludes == key.1@),
{
    m.get_index_of(key)
}

/// `indexmap::IndexMap::get_index`: the key and link at position `index`, if
/// any.
#[verifier::external_body]
pub(crate) fn query_links_get(
    m: &IndexMap<(Vec<usize>, Vec<usize>), QueryTypedPagedLink, RandomState>,
    index: usize,
) -> (r: Option<(&(Vec<usize>, Vec<usize>), &QueryTypedPagedLink)>)
    ensures
        index < query_link_records(*m).len() ==> r is Some && query_record(*r.unwrap().0, *r.unwrap().1)
            == query_link_records(*m)[index as int],
        index >= query_link_records(*m).len() ==> r is None,
{
    m.get_index(index)
}

/// `IndexMut<usize>` of `indexmap::IndexMap`: the link at position `index`,
/// for writing; whatever is written lands in that entry, under its key.
#[verifier::external_body]
pub(crate) fn query_links_link_mut(
    m: &mut IndexMap<(Vec<usize>, Vec<usize>), QueryTypedPagedLink, RandomState>,
    index: usize,
) -> (r: &mut QueryTypedPagedLink)
    requires
        index < query_link_records(*old(m)).len(),
    ensures
        with_link(query_link_records(*old(m))[index as int], *r) == query_link_records(*old(m))[index as int],
        query_link_records(*final(m)) == query_link_records(*old(m)).update(
            index as int,
            with_link(query_link_records(*old(m))[index as int], *final(r)),
        ),
{
    &mut m[index]
}

/// `indexmap::IndexMap::insert_full` of a key that the map does not hold:
/// the entry goes at the end, at the position that comes back.
#[verifier::external_body]
pub(crate) fn query_links_insert_new(
    m: &mut IndexMap<(Vec<usize>, Vec<usize>), QueryTypedPagedLink, RandomState>,
    key: (Vec<usize>, Vec<usize>),
    link: QueryTypedPagedLink,
) -> (r: usize)
    requires
        forall|i: int|
            0 <= i < query_link_records(*old(m)).len() ==> !(#[trigger] query_link_records(*old(m))[i].includes
                == key.0@ && query_link_records(*old(m))[i].excludes == key.1@),
    ensures
        r == query_link_records(*old(m)).len(),
        query_link_records(*final(m)) == query_link_records(*old(m)).push(query_record(key, link)),
{
    m.insert_full(key, link).0
}

} // verus!
