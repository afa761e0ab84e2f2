use enrs::entity::Entity;
use enrs::tables::dense_entity_value_table::DenseEntityValueTable;
use enrs::tables::entity_table::EntityTable;
use enrs::tables::vec_entity_value_table::VecEntityValueTable;
use enrs::utils::secondary_entity_index::{SecondaryEntityIndex, SecondaryEntityIndexErrors};

#[test]
fn u64_entity_fields() {
    let e = <u64 as Entity>::new(5);
    assert_eq!(e, 5);
    assert_eq!(e.idx(), 5);
    assert!(!e.is_null());
    assert!(<u64 as Entity>::new(0).is_null());
    let mut d = e;
    d.bump_version_with_idx(9);
    assert_eq!(d, (1u64 << 32) | 9);
    assert_eq!(d.idx(), 9);
    let r = d.set_idx(3);
    assert_eq!(r, (1u64 << 32) | 3);
    assert_eq!(d, r);
}

#[test]
fn generation_wraps() {
    let mut e: u16 = 0xF005;
    e.bump_version_with_idx(7);
    assert_eq!(e, 7);
    let mut f: u32 = 0xFFF0_0002;
    f.bump_version_with_idx(2);
    assert_eq!(f, 2);
    let mut g: u32 = 0x0010_0002;
    g.bump_version_with_idx(4);
    assert_eq!(g, 0x0020_0004);
}

#[test]
fn get_strong() {
    let mut entities = EntityTable::<u64>::builder().build();
    let entity = entities.insert();
    assert!(entities.contains(entity.raw()));
    assert_eq!(entity.raw(), 1);
}

#[test]
fn entity_recycling() {
    let mut entities = EntityTable::<u64>::builder_with_capacity(4).build();
    let a = entities.insert().raw();
    let b = entities.insert().raw();
    assert_eq!((a, b), (1, 2));
    assert_eq!(entities.delete(a), Ok(()));
    assert!(!entities.contains(a));
    assert!(entities.contains(b));
    assert_eq!(entities.delete(a), Err(()));
    let c = entities.insert().raw();
    assert_eq!(c, (1u64 << 32) | 1);
    assert!(entities.valid(a).is_none());
    assert_eq!(entities.valid(c).map(|v| v.raw()), Some(c));
    let d = entities.insert().raw();
    assert_eq!(d, 3);
}

#[test]
fn entity_free_list_order() {
    let mut entities = EntityTable::<u32>::builder().build();
    let es: Vec<u32> = (0..4).map(|_| entities.insert().raw()).collect();
    assert_eq!(es, vec![1, 2, 3, 4]);
    entities.delete(2).unwrap();
    entities.delete(4).unwrap();
    // The last deleted slot is handed out first.
    assert_eq!(entities.insert().raw(), (1 << 20) | 4);
    assert_eq!(entities.insert().raw(), (1 << 20) | 2);
    assert_eq!(entities.insert().raw(), 5);
}

#[test]
fn entity_clear() {
    let mut entities = EntityTable::<u64>::builder().build();
    let es: Vec<u64> = (0..3).map(|_| entities.insert().raw()).collect();
    entities.delete(es[1]).unwrap();
    assert_eq!(entities.clear(), Ok(()));
    for e in es.iter() {
        assert!(!entities.contains(*e));
    }
    assert!(entities.contains(0));
}

#[test]
fn secondary_index_roundtrip() {
    let mut index = SecondaryEntityIndex::<u64, usize>::new(usize::MAX);
    assert_eq!(index.get(300), Err(SecondaryEntityIndexErrors::IndexDoesNotExist(300)));
    *index.insert_mut(300).unwrap() = 7;
    assert_eq!(index.get(300), Ok(&7));
    assert_eq!(index.get(44), Err(SecondaryEntityIndexErrors::IndexDoesNotExist(44)));
    assert_eq!(index.insert_mut(300).map(|_| ()), Err(SecondaryEntityIndexErrors::IndexAlreadyExists(300)));
    // The index ignores the generation.
    assert_eq!(index.get((3u64 << 32) | 300), Ok(&7));
    *index.get_mut(300).unwrap() = 9;
    assert_eq!(index.get(300), Ok(&9));
    assert_eq!(index.remove(300), Ok(9));
    assert_eq!(index.get(300), Err(SecondaryEntityIndexErrors::IndexDoesNotExist(300)));
    assert_eq!(index.remove(300), Err(SecondaryEntityIndexErrors::IndexDoesNotExist(300)));
}

#[test]
fn dense_value_table() {
    let mut entities = EntityTable::<u64>::builder().build();
    let mut table = DenseEntityValueTable::<u64, &'static str>::with_capacity(2);
    let a = entities.insert();
    let b = entities.insert();
    let c = entities.insert();
    assert!(table.is_empty());
    assert_eq!(table.insert(a, "a"), Ok(()));
    assert_eq!(table.insert(b, "b"), Ok(()));
    assert_eq!(table.insert(c, "c"), Ok(()));
    assert_eq!(table.insert(a, "again"), Err(SecondaryEntityIndexErrors::IndexAlreadyExists(a.raw())));
    assert_eq!(table.len(), 3);
    assert!(table.contains(b.raw()));
    assert_eq!(table.delete(a.raw()), Ok(()));
    assert!(!table.contains(a.raw()));
    assert!(table.contains(c.raw()));
    assert_eq!(table.len(), 2);
    assert_eq!(table.delete(a.raw()), Err(SecondaryEntityIndexErrors::IndexDoesNotExist(a.raw())));
    // Another generation at the same index is refused.
    let stale = (1u64 << 32) | b.raw();
    assert_eq!(table.delete(stale), Err(SecondaryEntityIndexErrors::IndexDoesNotExist(stale)));
    assert_eq!(table.delete(c.raw()), Ok(()));
    assert_eq!(table.delete(b.raw()), Ok(()));
    assert!(table.is_empty());
}

#[test]
fn vec_value_table() {
    let mut entities = EntityTable::<u64>::builder().build();
    let mut table = VecEntityValueTable::<u64, String>::with_capacity(0);
    let a = entities.insert();
    let b = entities.insert();
    assert_eq!(table.insert(b, "b".to_string()), Ok(()));
    assert_eq!(table.len(), 1);
    assert!(table.contains(b.raw()));
    assert!(!table.contains(a.raw()));
    assert_eq!(table.insert(b, "b2".to_string()), Err(()));
    assert_eq!(table.insert(a, "a".to_string()), Ok(()));
    assert_eq!(table.len(), 2);
    assert_eq!(table.delete(b.raw()), Ok(()));
    assert_eq!(table.delete(b.raw()), Err(()));
    assert_eq!(table.len(), 1);
    assert!(!table.is_empty());
    // Padding slots hold the null entity.
    let null = entities.valid(0).unwrap();
    assert_eq!(table.insert(null, "null".to_string()), Err(()));
}

#[test]
fn valid_entity_reads_as_its_handle() {
    let mut entities = EntityTable::<u32>::builder().build();
    let first = entities.insert();
    let raw = first.raw();
    assert_eq!(*first, raw);
    assert_eq!(first.idx(), 1);
}
