use ecs_storage::component::ComponentId;
use ecs_storage::resource::Resources;

#[test]
fn resource_insert_get_remove() {
    let mut pool: Resources<true> = Resources::new();
    assert!(pool.is_send());
    assert_eq!(pool.get(ComponentId(3)), None);
    assert_eq!(pool.insert(ComponentId(3), vec![1, 2, 3]), None);
    assert!(pool.contains(ComponentId(3)));
    assert_eq!(pool.get(ComponentId(3)), Some(&vec![1u8, 2, 3]));
    assert_eq!(pool.insert(ComponentId(3), vec![4]), Some(vec![1u8, 2, 3]));
    assert_eq!(pool.get(ComponentId(3)), Some(&vec![4u8]));
    assert_eq!(pool.get(ComponentId(2)), None);
    assert_eq!(pool.remove(ComponentId(3)), Some(vec![4u8]));
    assert_eq!(pool.remove(ComponentId(3)), None);
    assert_eq!(pool.remove(ComponentId(50)), None);
    assert!(!pool.contains(ComponentId(3)));
}

#[test]
fn non_send_pool_is_flagged() {
    let mut pool: Resources<false> = Resources::new();
    assert!(!pool.is_send());
    assert_eq!(pool.insert(ComponentId(0), vec![]), None);
    assert_eq!(pool.get(ComponentId(0)), Some(&Vec::<u8>::new()));
}

#[test]
fn resource_get_mut_writes_value() {
    let mut pool: Resources<true> = Resources::new();
    pool.insert(ComponentId(1), vec![1]);
    pool.insert(ComponentId(4), vec![4]);
    pool.get_mut(ComponentId(4)).unwrap().push(5);
    assert!(pool.get_mut(ComponentId(2)).is_none());
    assert!(pool.get_mut(ComponentId(9)).is_none());
    assert_eq!(pool.get(ComponentId(4)), Some(&vec![4u8, 5]));
    assert_eq!(pool.get(ComponentId(1)), Some(&vec![1u8]));
}
