use core::any::TypeId;
use ecs_storage::component::{
    ArchetypeId, ComponentId, ComponentInfo, Entity, Layout, StorageType,
};
use ecs_storage::sub_storage::{MainStorage, SubStorage, SubStorageId, SubStorages};
use ecs_storage::sub_world::SubWorlds;
use ecs_storage::table::Table;
use ecs_storage::two_mut::get_two_mut;

struct Render;

impl SubStorage for Render {}

struct Physics;

impl SubStorage for Physics {}

#[test]
fn new_has_main_partition_only() {
    let subs = SubStorages::new();
    assert_eq!(subs.len(), 1);
    assert_eq!(subs.main_key(), TypeId::of::<MainStorage>());
    assert_eq!(subs.lookup(TypeId::of::<MainStorage>()), Some(SubStorageId(0)));
    assert_eq!(subs.lookup(TypeId::of::<Render>()), None);
    assert_eq!(subs.index(SubStorageId::main()).id, SubStorageId(0));
    assert_eq!(subs.index(SubStorageId(0)).archetypes.len(), 0);
    assert_eq!(subs.index(SubStorageId(0)).storages.empty(), ArchetypeId(0));
}

#[test]
fn lookup_or_register_appends_once() {
    let mut subs = SubStorages::new();
    let render = subs.lookup_or_register(TypeId::of::<Render>(), ArchetypeId(5));
    assert_eq!(render, SubStorageId(1));
    assert_eq!(subs.len(), 2);
    assert_eq!(subs.index(render).id, render);
    assert_eq!(subs.index(render).storages.empty(), ArchetypeId(5));
    assert_eq!(subs.lookup_or_register(TypeId::of::<Render>(), ArchetypeId(6)), render);
    assert_eq!(subs.len(), 2);
    assert_eq!(subs.index(render).storages.empty(), ArchetypeId(5));
    assert_eq!(
        subs.lookup_or_register(TypeId::of::<MainStorage>(), ArchetypeId(9)),
        SubStorageId(0)
    );
    assert_eq!(subs.lookup_or_register_for::<Physics>(ArchetypeId(7)), SubStorageId(2));
    assert_eq!(subs.lookup_or_register_for::<Render>(ArchetypeId(7)), SubStorageId(1));
    assert_eq!(subs.lookup(TypeId::of::<Physics>()), Some(SubStorageId(2)));
    assert_eq!(subs.len(), 3);
}

#[test]
fn index_mut_changes_one_partition() {
    let mut subs = SubStorages::new();
    let render = subs.lookup_or_register_for::<Render>(ArchetypeId(1));
    subs.index_mut(render).archetypes.push(ArchetypeId(3));
    assert_eq!(subs.index(render).archetypes, vec![ArchetypeId(3)]);
    assert_eq!(subs.index(SubStorageId(0)).archetypes.len(), 0);
}

#[test]
fn get_two_mut_in_either_order() {
    let mut subs = SubStorages::new();
    let render = subs.lookup_or_register_for::<Render>(ArchetypeId(1));
    let physics = subs.lookup_or_register_for::<Physics>(ArchetypeId(2));
    {
        let (a, b) = subs.get_two_mut(render, physics);
        assert_eq!(a.id, render);
        assert_eq!(b.id, physics);
        a.archetypes.push(ArchetypeId(10));
        b.storages.resources.insert(ComponentId(0), vec![1]);
    }
    {
        let (a, b) = subs.get_two_mut(physics, SubStorageId(0));
        assert_eq!(a.id, physics);
        assert_eq!(b.id, SubStorageId(0));
        a.archetypes.push(ArchetypeId(20));
        b.archetypes.push(ArchetypeId(30));
    }
    assert_eq!(subs.index(render).archetypes, vec![ArchetypeId(10)]);
    assert_eq!(subs.index(physics).archetypes, vec![ArchetypeId(20)]);
    assert_eq!(subs.index(SubStorageId(0)).archetypes, vec![ArchetypeId(30)]);
    assert_eq!(subs.index(physics).storages.resources.get(ComponentId(0)), Some(&vec![1u8]));
    assert!(!subs.index(render).storages.resources.contains(ComponentId(0)));
}

#[test]
fn get_two_mut_on_a_vector() {
    let mut items = vec![1, 2, 3, 4];
    {
        let (a, b) = get_two_mut(&mut items, 3, 1);
        assert_eq!((*a, *b), (4, 2));
        *a = 40;
        *b = 20;
    }
    {
        let (a, b) = get_two_mut(&mut items, 0, 2);
        *a += 9;
        *b += 9;
    }
    assert_eq!(items, vec![10, 20, 12, 40]);
}

#[test]
fn sub_storage_id_as_usize() {
    assert_eq!(SubStorageId(0).as_usize(), 0);
    assert_eq!(SubStorageId(17).as_usize(), 17);
    assert_eq!(SubStorageId::invalid(), SubStorageId(u32::MAX));
    assert_eq!(SubStorageId::main(), SubStorageId(0));
}

#[test]
fn sub_worlds_start_empty() {
    let worlds = SubWorlds::new();
    assert!(worlds.sub_worlds.is_empty());
    assert!(SubWorlds::default().sub_worlds.is_empty());
}

#[test]
fn try_lookup_or_register_registers() {
    let mut subs = SubStorages::default();
    assert_eq!(subs.len(), 1);
    assert_eq!(
        subs.try_lookup_or_register(TypeId::of::<Render>(), ArchetypeId(2)),
        Some(SubStorageId(1))
    );
    assert_eq!(
        subs.try_lookup_or_register(TypeId::of::<Render>(), ArchetypeId(2)),
        Some(SubStorageId(1))
    );
    assert_eq!(
        subs.try_lookup_or_register(TypeId::of::<MainStorage>(), ArchetypeId(2)),
        Some(SubStorageId(0))
    );
    assert_eq!(subs.len(), 2);
}

fn one_column_table(needs_drop: bool) -> Table {
    let mut table = Table::new();
    table.add_column(&ComponentInfo {
        id: ComponentId(0),
        layout: Layout { size: 2, align: 1 },
        needs_drop,
        storage_type: StorageType::Table,
    });
    table
}

#[test]
fn move_row_across_partitions() {
    let mut subs = SubStorages::new();
    let render = subs.lookup_or_register_for::<Render>(ArchetypeId(1));
    let main = SubStorageId::main();
    let mut source = one_column_table(true);
    source.allocate_row(Entity { index: 1, generation: 0 }, &vec![vec![1, 2]]);
    source.allocate_row(Entity { index: 2, generation: 0 }, &vec![vec![3, 4]]);
    assert_eq!(subs.index_mut(main).storages.tables.insert(source), 0);
    assert_eq!(subs.index_mut(render).storages.tables.insert(one_column_table(true)), 0);

    let (row, fixup) = subs.move_row_across(main, 0, render, 0, 0, &vec![vec![0, 0]]);
    assert_eq!(row, 0);
    assert_eq!(fixup, Some(Entity { index: 2, generation: 0 }));
    let from = subs.index(main).storages.tables.get(0).unwrap();
    let to = subs.index(render).storages.tables.get(0).unwrap();
    assert_eq!(from.row_count(), 1);
    assert_eq!(to.row_count(), 1);
    assert_eq!(from.get(0, 0), Some(&[3u8, 4][..]));
    assert_eq!(to.get(0, 0), Some(&[1u8, 2][..]));
    assert_eq!(to.entity(0), Some(Entity { index: 1, generation: 0 }));

    let (row, fixup) = subs.move_row_across(render, 0, main, 0, 0, &vec![vec![0, 0]]);
    assert_eq!(row, 1);
    assert_eq!(fixup, None);
    assert_eq!(subs.index(main).storages.tables.get(0).unwrap().row_count(), 2);
    assert_eq!(subs.index(render).storages.tables.get(0).unwrap().row_count(), 0);
    assert_eq!(
        subs.index(main).storages.tables.get(0).unwrap().get(0, 1),
        Some(&[1u8, 2][..])
    );
}
