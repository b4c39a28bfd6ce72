use ecs_storage::component::{ComponentId, ComponentInfo, Entity, Layout, StorageType};
use ecs_storage::sparse_set::{SparseSet, SparseSets};

fn entity(index: u32) -> Entity {
    Entity { index, generation: 0 }
}

#[test]
fn insert_then_get_returns_value() {
    let mut set = SparseSet::new(Layout { size: 2, align: 1 }, false);
    assert!(!set.insert(entity(7), &[1, 2]));
    assert_eq!(set.get(entity(7)), Some(&[1u8, 2][..]));
    assert!(set.contains(entity(7)));
    assert_eq!(set.len(), 1);
    assert_eq!(set.get(entity(6)), None);
    assert_eq!(set.get(entity(8)), None);
}

#[test]
fn remove_then_get_reports_absent() {
    let mut set = SparseSet::new(Layout { size: 1, align: 1 }, false);
    set.insert(entity(3), &[9]);
    assert_eq!(set.remove(entity(3)), Some(vec![9u8]));
    assert_eq!(set.get(entity(3)), None);
    assert!(!set.contains(entity(3)));
    assert_eq!(set.remove(entity(3)), None);
    assert_eq!(set.remove(entity(100)), None);
    assert_eq!(set.len(), 0);
}

#[test]
fn zero_sized_tag_inserted_twice() {
    let mut set = SparseSet::new(Layout { size: 0, align: 1 }, false);
    let e5 = entity(5);
    assert!(!set.insert(e5, &[]));
    assert!(set.insert(e5, &[]));
    assert!(set.get(e5).is_some());
    assert_eq!(set.len(), 1);
}

#[test]
fn insert_overwrites_value() {
    let mut set = SparseSet::new(Layout { size: 2, align: 2 }, true);
    assert!(!set.insert(entity(1), &[1, 1]));
    assert!(set.insert(entity(1), &[2, 2]));
    assert_eq!(set.get(entity(1)), Some(&[2u8, 2][..]));
    assert_eq!(set.len(), 1);
    assert_eq!(set.take_destructed(), vec![vec![1u8, 1]]);
    assert_eq!(set.remove(entity(1)), Some(vec![2u8, 2]));
    assert!(set.take_destructed().is_empty());
}

#[test]
fn remove_fixes_up_moved_entity() {
    let mut set = SparseSet::new(Layout { size: 1, align: 1 }, false);
    set.insert(entity(0), &[10]);
    set.insert(entity(4), &[14]);
    set.insert(entity(2), &[12]);
    assert_eq!(set.remove(entity(0)), Some(vec![10u8]));
    assert_eq!(set.get(entity(2)), Some(&[12u8][..]));
    assert_eq!(set.get(entity(4)), Some(&[14u8][..]));
    assert_eq!(set.get(entity(0)), None);
    assert_eq!(set.len(), 2);
    assert_eq!(set.remove(entity(2)), Some(vec![12u8]));
    assert_eq!(set.get(entity(4)), Some(&[14u8][..]));
    assert_eq!(set.len(), 1);
}

#[test]
fn sparse_sets_get_or_insert_is_stable() {
    let info = ComponentInfo {
        id: ComponentId(9),
        layout: Layout { size: 1, align: 1 },
        needs_drop: false,
        storage_type: StorageType::SparseSet,
    };
    let other = ComponentInfo { id: ComponentId(2), ..info };
    let mut sets = SparseSets::new();
    assert!(sets.get(ComponentId(9)).is_none());
    assert_eq!(sets.get_or_insert(&info), 0);
    assert_eq!(sets.get_or_insert(&other), 1);
    assert_eq!(sets.get_or_insert(&info), 0);
    assert_eq!(sets.len(), 2);
    assert_eq!(sets.position(ComponentId(2)), Some(1));
    assert_eq!(sets.position(ComponentId(3)), None);
    assert!(!sets.insert_at(0, entity(1), &[5]));
    assert!(sets.insert_at(0, entity(1), &[6]));
    assert_eq!(sets.get(ComponentId(9)).unwrap().get(entity(1)), Some(&[6u8][..]));
    assert_eq!(sets.get(ComponentId(2)).unwrap().len(), 0);
    assert!(sets.take_destructed_at(0).is_empty());
    assert_eq!(sets.remove_at(0, entity(1)), Some(vec![6u8]));
    assert_eq!(sets.remove_at(0, entity(1)), None);
}

#[test]
fn get_mut_writes_one_value() {
    let mut set = SparseSet::new(Layout { size: 1, align: 1 }, false);
    set.insert(entity(1), &[10]);
    set.insert(entity(2), &[20]);
    set.get_mut(entity(2)).unwrap()[0] = 21;
    assert!(set.get_mut(entity(3)).is_none());
    assert_eq!(set.get(entity(1)), Some(&[10u8][..]));
    assert_eq!(set.get(entity(2)), Some(&[21u8][..]));
}

#[test]
fn sparse_index_grows_with_largest_entity() {
    let mut set = SparseSet::new(Layout { size: 1, align: 1 }, false);
    set.insert(entity(40), &[1]);
    set.insert(entity(3), &[2]);
    assert_eq!(set.get(entity(40)), Some(&[1u8][..]));
    assert_eq!(set.get(entity(3)), Some(&[2u8][..]));
    assert_eq!(set.get(entity(39)), None);
    assert_eq!(set.get(entity(41)), None);
    assert_eq!(set.len(), 2);
}
