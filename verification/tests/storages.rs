use ecs_storage::component::{
    ArchetypeId, BundleId, BundleInfo, ComponentId, Components, Layout, StorageType,
};
use ecs_storage::storages::Storages;

fn registry() -> Components {
    let mut components = Components::new();
    components.register(Layout { size: 8, align: 4 }, false, StorageType::Table);
    components.register(Layout { size: 0, align: 1 }, false, StorageType::SparseSet);
    components.register(Layout { size: 4, align: 4 }, true, StorageType::SparseSet);
    components
}

#[test]
fn empty_returns_marker() {
    let storages = Storages::new(ArchetypeId(4));
    assert_eq!(storages.empty(), ArchetypeId(4));
    assert_eq!(storages.sparse_sets.len(), 0);
    assert_eq!(storages.tables.len(), 0);
}

#[test]
fn prepare_component_by_storage_type() {
    let components = registry();
    let mut storages = Storages::new(ArchetypeId(0));
    storages.prepare_component(components.get_info(ComponentId(0)).unwrap());
    assert_eq!(storages.sparse_sets.len(), 0);
    storages.prepare_component(components.get_info(ComponentId(2)).unwrap());
    assert_eq!(storages.sparse_sets.len(), 1);
    assert_eq!(storages.sparse_sets.position(ComponentId(2)), Some(0));
    storages.prepare_component(components.get_info(ComponentId(2)).unwrap());
    assert_eq!(storages.sparse_sets.len(), 1);
    assert!(components.get_info(ComponentId(3)).is_none());
}

#[test]
fn prepare_bundle_is_idempotent() {
    let components = registry();
    let bundle = BundleInfo {
        id: BundleId(0),
        component_ids: vec![ComponentId(2), ComponentId(0), ComponentId(1), ComponentId(2)],
    };
    let mut storages = Storages::new(ArchetypeId(0));
    storages.prepare_bundle(&components, &bundle);
    assert_eq!(storages.sparse_sets.len(), 2);
    assert_eq!(storages.sparse_sets.position(ComponentId(2)), Some(0));
    assert_eq!(storages.sparse_sets.position(ComponentId(1)), Some(1));
    assert_eq!(storages.sparse_sets.position(ComponentId(0)), None);
    storages.prepare_bundle(&components, &bundle);
    assert_eq!(storages.sparse_sets.len(), 2);
    assert_eq!(storages.sparse_sets.position(ComponentId(2)), Some(0));
    assert_eq!(storages.sparse_sets.position(ComponentId(1)), Some(1));
    assert_eq!(storages.tables.len(), 0);
    assert!(!storages.is_prepared(BundleId(0)));
}

#[test]
fn prepare_bundle_once_records_bundle() {
    let components = registry();
    let bundle = BundleInfo { id: BundleId(7), component_ids: vec![ComponentId(1)] };
    let mut storages = Storages::new(ArchetypeId(0));
    assert!(!storages.is_prepared(BundleId(7)));
    assert!(storages.prepare_bundle_once(&components, &bundle));
    assert!(storages.is_prepared(BundleId(7)));
    assert!(!storages.is_prepared(BundleId(8)));
    assert_eq!(storages.sparse_sets.len(), 1);
    assert!(!storages.prepare_bundle_once(&components, &bundle));
    assert_eq!(storages.sparse_sets.len(), 1);
    assert_eq!(bundle.id(), BundleId(7));
    assert_eq!(bundle.contributed_components(), &vec![ComponentId(1)]);
}

#[test]
fn default_storages_are_empty() {
    let storages = Storages::default();
    assert_eq!(storages.empty(), ArchetypeId(0));
    assert_eq!(storages.sparse_sets.len(), 0);
    assert_eq!(storages.tables.len(), 0);
    assert!(!storages.resources.contains(ComponentId(0)));
    assert!(!storages.non_send_resources.contains(ComponentId(0)));
    assert!(!storages.is_prepared(BundleId(0)));
}
