use enrs::storages::sparse_typed_paged_map::{
    get_exclude_matching_query_groups, get_include_matching_query_groups, get_matching_query_groups,
    update_query_mappings,
    ComponentLocations, DensePagedDataActual, QueryTypedPagedLink, SparseTypedPagedMap,
    SparseTypedPagedMapErrors,
};
use enrs::utils::secondary_entity_index::SecondaryEntityIndexErrors;
use indexmap::{IndexMap, IndexSet};

#[test]
fn sparse_typed_page_multimap_tests() {
    // Storages 0, 1, 2 stand for `usize`, `f32` and `bool`.
    let mut map = SparseTypedPagedMap::<u64>::new();
    let (group, created) = map.group_for(vec![0, 1, 2], 1);
    assert_eq!((group, created), (0, true));
    assert_eq!(map.insert_location(1, ComponentLocations::new(group, 0)), Ok(()));
    let (again, created) = map.group_for(vec![0, 1, 2], 8);
    assert_eq!((again, created), (0, false));
    assert_eq!(map.extend_locations((2..10u64).collect(), group, 1), Ok(()));
    assert_eq!(map.extend_locations(vec![11, 12, 13], group, 9), Ok(()));
    assert_eq!(map.insert_location(22, ComponentLocations::new(group, 12)), Ok(()));
    assert_eq!(
        map.extend_locations(vec![21, 22, 23], group, 13),
        Err(SparseTypedPagedMapErrors::SecondaryIndexError(
            SecondaryEntityIndexErrors::IndexAlreadyExists(22)
        ))
    );
    assert!(!map.contains(21));
    assert!(map.contains(22));
    assert!(!map.contains(23));
    assert_eq!(
        map.extend_locations(vec![22, 23], group, 13),
        Err(SparseTypedPagedMapErrors::SecondaryIndexError(
            SecondaryEntityIndexErrors::IndexAlreadyExists(22)
        ))
    );
    assert!(!map.contains(23));
    let l = map.location(13).unwrap();
    assert_eq!((l.group, l.index), (0, 11));
}

#[test]
fn empty_entities() {
    let mut map = SparseTypedPagedMap::<u64>::new();
    let (group, _) = map.group_for(vec![], 1);
    assert_eq!(map.insert_location(1, ComponentLocations::new(group, 0)), Ok(()));
    assert_eq!(map.contains(1), true);
}

#[test]
fn duplicate_in_batch_rolls_back() {
    let mut map = SparseTypedPagedMap::<u64>::new();
    let (group, _) = map.group_for(vec![4], 0);
    assert_eq!(
        map.extend_locations(vec![5, 6, 5], group, 0),
        Err(SparseTypedPagedMapErrors::SecondaryIndexError(
            SecondaryEntityIndexErrors::IndexAlreadyExists(5)
        ))
    );
    assert!(!map.contains(5));
    assert!(!map.contains(6));
}

#[test]
fn queries_follow_groups() {
    let mut map = SparseTypedPagedMap::<u64>::new();
    map.group_for(vec![0, 1], 0);
    map.group_for(vec![1], 0);
    assert_eq!(map.query_groups(vec![0], vec![]), vec![0]);
    assert_eq!(map.query_groups(vec![1], vec![]), vec![0, 1]);
    assert_eq!(map.query_groups(vec![], vec![]), Vec::<usize>::new());
    map.group_for(vec![1, 0, 2], 0);
    assert_eq!(map.query_groups(vec![0], vec![]), vec![0, 2]);
    assert_eq!(map.query_groups(vec![1], vec![]), vec![0, 1, 2]);
    assert_eq!(map.group_count(), 3);
    assert_eq!(map.find_group(&[1, 0, 2]), Some(2));
    assert_eq!(map.find_group(&[0, 1, 2]), None);
}

#[test]
fn matching_groups() {
    let groups: IndexSet<Vec<usize>> = vec![vec![0, 1], vec![1], vec![2, 0]].into_iter().collect();
    assert_eq!(get_include_matching_query_groups(&groups, &[0]), vec![0, 2]);
    assert_eq!(get_include_matching_query_groups(&groups, &[0, 1]), vec![0]);
    assert_eq!(get_include_matching_query_groups(&groups, &[]), Vec::<usize>::new());
    assert_eq!(get_exclude_matching_query_groups(&groups, &[2]), vec![2]);
    assert_eq!(get_exclude_matching_query_groups(&groups, &[1, 2]), vec![0, 1, 2]);
    assert_eq!(get_exclude_matching_query_groups(&groups, &[]), Vec::<usize>::new());
    assert_eq!(get_matching_query_groups(&groups, &[1, 0, 3]), vec![0, 1]);
    let mut queries: IndexMap<(Vec<usize>, Vec<usize>), QueryTypedPagedLink> = IndexMap::new();
    queries.insert(
        (vec![0], vec![]),
        QueryTypedPagedLink { include_groups: vec![0], exclude_groups: vec![], include_maps: vec![0] },
    );
    queries.insert(
        (vec![0], vec![2]),
        QueryTypedPagedLink { include_groups: vec![0], exclude_groups: vec![], include_maps: vec![0] },
    );
    update_query_mappings(&groups, &mut queries, 2);
    assert_eq!(queries[0].include_groups, vec![0, 2]);
    assert_eq!(queries[1].include_groups, vec![0]);
}

#[test]
fn paged_components() {
    let mut data = DensePagedDataActual::<u32>::with_groups(2);
    assert_eq!(data.len_groups(), 2);
    assert_eq!(data.push(1, 10), 0);
    assert_eq!(data.push(1, 11), 1);
    assert_eq!(data.push_all(1, vec![12, 13]), 2);
    assert_eq!(data.group_slice(1), &[10, 11, 12, 13]);
    data.swap_remove(1, 0);
    assert_eq!(data.group_slice(1), &[13, 11, 12]);
    data.truncate_group(1, 2);
    assert_eq!(data.group_slice(1), &[13, 11]);
    assert_eq!(data.value_at(1, 1), Some(&11));
    assert_eq!(data.value_at(1, 5), None);
    data.resize(3);
    assert_eq!(data.group_slice(2), &[] as &[u32]);
    data.resize(1);
    assert_eq!(data.len_groups(), 1);
    let inv = ComponentLocations::invalid();
    assert_eq!((inv.group, inv.index), (usize::MAX, usize::MAX));
}

#[test]
fn sparse_index_errors_convert() {
    assert_eq!(
        SparseTypedPagedMapErrors::<u64>::from(SecondaryEntityIndexErrors::IndexAlreadyExists(7u64)),
        SparseTypedPagedMapErrors::SecondaryIndexError(SecondaryEntityIndexErrors::IndexAlreadyExists(7))
    );
}

#[test]
fn excluding_queries_follow_new_groups() {
    let mut map = SparseTypedPagedMap::<u64>::new();
    map.group_for(vec![0, 1], 0);
    map.group_for(vec![1], 0);
    // On first use the included groups are all groups holding storage 1.
    assert_eq!(map.query_groups(vec![1], vec![0]), vec![0, 1]);
    // A later group joins only where it holds none of the excluded storages.
    map.group_for(vec![1, 0, 2], 0);
    map.group_for(vec![1, 3], 0);
    assert_eq!(map.query_groups(vec![1], vec![0]), vec![0, 1, 3]);
    assert_eq!(map.query_groups(vec![1], vec![]), vec![0, 1, 2, 3]);
}
