use enrs::tables::dense_entity_dynamic_paged_multi_value_table::{
    transform_storage_split, DenseEntityDynamicPagedMultiValueTable, DenseEntityDynamicPagedMultiValueTableErrors,
    DensePagedData,
};
use enrs::tables::entity_table::EntityTable;
use enrs::utils::secondary_entity_index::SecondaryEntityIndexErrors;

#[test]
fn insertions_and_deletions() {
    let mut entities = EntityTable::<u64>::builder().build();
    let mut multi = DenseEntityDynamicPagedMultiValueTable::<u64>::with_capacity(0);
    // Group 0 holds no value, group 1 holds one `usize` per entity.
    multi.ensure_group_count(2);
    let mut singles = DensePagedData::<usize>::new(0);
    singles.ensure_group_count(2);

    let entity1 = entities.insert().raw();
    multi.insert_valid_location_mut(entity1, 0).unwrap();
    let entity2 = entities.insert().raw();
    let l2 = multi.insert_valid_location_mut(entity2, 1).unwrap();
    singles.push(l2.group, 42);
    assert!(matches!(
        multi.insert_valid_location_mut(entity2, 0),
        Err(DenseEntityDynamicPagedMultiValueTableErrors::SecondaryIndexError(
            SecondaryEntityIndexErrors::IndexAlreadyExists(_)
        ))
    ));
    let removed = multi.remove_valid_location(entity2).unwrap();
    singles.swap_remove(removed.group, removed.index);
    multi.remove_valid_location(entity1).unwrap();
    entities.delete(entity1).unwrap();
    entities.delete(entity2).unwrap();

    let e1 = entities.insert().raw();
    let e2 = entities.insert().raw();
    let e3 = entities.insert().raw();
    for e in [e1, e2, e3] {
        multi.insert_valid_location_mut(e, 0).unwrap();
    }
    for e in [e1, e2, e3] {
        multi.remove_valid_location(e).unwrap();
    }
    assert_eq!(multi.get_valid_location(e1).map(|_| ()).is_err(), true);

    let entity_vec: Vec<u64> = (0..10).map(|_| entities.insert().raw()).collect();
    let start = singles.len_groups();
    assert_eq!(start, 2);
    singles.extend(1, (0..entity_vec.len()).collect());
    for e in entity_vec.iter() {
        multi.insert_valid_location_mut(*e, 1).unwrap();
    }
    for (i, e) in entity_vec.iter().enumerate() {
        let l = multi.get_valid_location(*e).unwrap();
        assert_eq!(singles.get(l.group, l.index), Some(&i));
    }
}

#[test]
fn transforms() {
    let mut entities = EntityTable::<u64>::builder().build();
    let mut multi = DenseEntityDynamicPagedMultiValueTable::<u64>::with_capacity(0);
    multi.ensure_group_count(2);
    // Storage 0 holds `bool`s, storage 1 holds `usize`s, storage 2 holds `isize`s.
    let mut bools = DensePagedData::<bool>::new(0);
    let mut usizes = DensePagedData::<usize>::new(1);
    let mut isizes = DensePagedData::<isize>::new(2);
    for s in [&mut bools] {
        s.ensure_group_count(2);
    }
    usizes.ensure_group_count(2);
    isizes.ensure_group_count(2);

    let entity1 = entities.insert().raw();
    let l = multi.insert_valid_location_mut(entity1, 0).unwrap();
    bools.push(l.group, true);
    usizes.push(l.group, 42);
    assert_eq!(usizes.get(l.group, l.index), Some(&42));
    assert_eq!(bools.get(l.group, l.index), Some(&true));

    // Move to group 1: keep the bool, drop the usize, add an isize.
    let old = multi.get_valid_location(entity1).unwrap();
    usizes.swap_remove(old.group, old.index);
    bools.move_groups(old.group, old.index, 1);
    let new = multi.move_valid_location(entity1, 1).unwrap();
    isizes.push(new.group, 21);
    assert_eq!(new.group, 1);
    assert_eq!(usizes.get(0, 0), None);
    assert_eq!(bools.get(new.group, new.index), Some(&true));
    assert_eq!(isizes.get(new.group, new.index), Some(&21));
    assert_eq!(multi.group_count(), 2);
}

#[test]
fn generation_mismatch() {
    let mut multi = DenseEntityDynamicPagedMultiValueTable::<u64>::with_capacity(0);
    multi.ensure_group_count(1);
    multi.insert_valid_location_mut(5, 0).unwrap();
    let stale = (2u64 << 32) | 5;
    assert!(matches!(
        multi.get_valid_location(stale),
        Err(DenseEntityDynamicPagedMultiValueTableErrors::EntityGenerationMismatch(s, 5)) if s == stale
    ));
    assert!(matches!(
        multi.remove_valid_location(6),
        Err(DenseEntityDynamicPagedMultiValueTableErrors::SecondaryIndexError(
            SecondaryEntityIndexErrors::IndexDoesNotExist(6)
        ))
    ));
}

#[test]
fn remove_moves_last_entity() {
    let mut multi = DenseEntityDynamicPagedMultiValueTable::<u64>::with_capacity(0);
    multi.ensure_group_count(1);
    for e in 1..=3u64 {
        multi.insert_valid_location_mut(e, 0).unwrap();
    }
    let l = multi.remove_valid_location(1).unwrap();
    assert_eq!((l.group, l.index), (0, 0));
    let moved = multi.get_valid_location(3).unwrap();
    assert_eq!((moved.group, moved.index), (0, 0));
    let kept = multi.get_valid_location(2).unwrap();
    assert_eq!((kept.group, kept.index), (0, 1));
}

#[test]
fn paged_data_groups() {
    let mut data = DensePagedData::<u8>::new(3);
    assert_eq!(data.get_idx(), 3);
    data.ensure_group_count(3);
    data.push(2, 7);
    data.push(2, 8);
    data.push(2, 9);
    data.move_groups(2, 0, 1);
    assert_eq!(data.get(1, 0), Some(&7));
    assert_eq!(data.get(2, 0), Some(&9));
    assert_eq!(data.get(2, 1), Some(&8));
    assert_eq!(data.get(2, 2), None);
    data.ensure_group_count(2);
    assert_eq!(data.len_groups(), 2);
}

#[test]
fn transform_split_of_storages() {
    // group storages 3, 5, 7, 9: 5 is removed, 9 is re-added, 3 and 7 move.
    let (dropped, moving) = transform_storage_split(&[3, 5, 7, 9], &[5, 11], &[9, 2]);
    assert_eq!(dropped, vec![5]);
    assert_eq!(moving, vec![3, 7]);
    // a type both removed and added is dropped and not moved
    let (dropped, moving) = transform_storage_split(&[1, 2], &[2], &[2]);
    assert_eq!(dropped, vec![2]);
    assert_eq!(moving, vec![1]);
    let (dropped, moving) = transform_storage_split(&[], &[1], &[]);
    assert!(dropped.is_empty() && moving.is_empty());
}

#[test]
fn paged_value_written_in_place() {
    let mut data = DensePagedData::<usize>::new(0);
    data.ensure_group_count(2);
    data.push(1, 21);
    data.push(1, 5);
    *data.value_mut(1, 0) *= 2;
    assert_eq!(data.get(1, 0), Some(&42));
    assert_eq!(data.get(1, 1), Some(&5));
    assert_eq!(data.get(0, 0), None);
}

#[test]
fn index_errors_convert() {
    let e = DenseEntityDynamicPagedMultiValueTableErrors::<u64>::from(SecondaryEntityIndexErrors::IndexDoesNotExist(3u64));
    assert!(matches!(
        e,
        DenseEntityDynamicPagedMultiValueTableErrors::SecondaryIndexError(SecondaryEntityIndexErrors::IndexDoesNotExist(3))
    ));
}
