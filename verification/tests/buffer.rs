use ecs_storage::blob_vec::TypeErasedBuffer;
use ecs_storage::component::Layout;

fn layout(size: usize, align: usize) -> Layout {
    Layout { size, align }
}

#[test]
fn new_buffer_is_empty() {
    let buffer = TypeErasedBuffer::new(layout(4, 4), false);
    assert_eq!(buffer.len(), 0);
    assert!(buffer.is_empty());
    assert_eq!(buffer.element_layout(), layout(4, 4));
    assert!(!buffer.needs_drop());
    assert_eq!(buffer.get(0), None);
}

#[test]
fn push_appends_in_order() {
    let mut buffer = TypeErasedBuffer::new(layout(2, 1), false);
    buffer.push(&[1, 2]);
    buffer.push(&[3, 4]);
    buffer.push(&[5, 6]);
    assert_eq!(buffer.len(), 3);
    assert_eq!(buffer.get(0), Some(&[1u8, 2][..]));
    assert_eq!(buffer.get(1), Some(&[3u8, 4][..]));
    assert_eq!(buffer.get(2), Some(&[5u8, 6][..]));
    assert_eq!(buffer.get(3), None);
}

#[test]
fn swap_remove_moves_last_into_place() {
    let mut buffer = TypeErasedBuffer::new(layout(2, 1), true);
    buffer.push(&[1, 2]);
    buffer.push(&[3, 4]);
    buffer.push(&[5, 6]);
    let removed = buffer.swap_remove(0);
    assert_eq!(removed, vec![1u8, 2]);
    assert_eq!(buffer.len(), 2);
    assert_eq!(buffer.get(0), Some(&[5u8, 6][..]));
    assert_eq!(buffer.get(1), Some(&[3u8, 4][..]));
}

#[test]
fn swap_remove_of_last_element() {
    let mut buffer = TypeErasedBuffer::new(layout(3, 1), false);
    buffer.push(&[1, 2, 3]);
    buffer.push(&[4, 5, 6]);
    let removed = buffer.swap_remove(1);
    assert_eq!(removed, vec![4u8, 5, 6]);
    assert_eq!(buffer.len(), 1);
    assert_eq!(buffer.get(0), Some(&[1u8, 2, 3][..]));
}

#[test]
fn relocated_elements_are_not_destructed() {
    let mut source = TypeErasedBuffer::new(layout(1, 1), true);
    let mut target = TypeErasedBuffer::new(layout(1, 1), true);
    source.push(&[7]);
    source.push(&[8]);
    source.push(&[9]);
    let moved = source.swap_remove(1);
    assert_eq!(moved, vec![8u8]);
    target.push(&moved);
    assert!(source.take_destructed().is_empty());
    source.swap_remove_and_drop(0);
    assert_eq!(source.len(), 1);
    assert_eq!(source.get(0), Some(&[9u8][..]));
    assert_eq!(source.clear(), 1);
    assert_eq!(source.take_destructed(), vec![vec![7u8], vec![9u8]]);
    assert!(source.take_destructed().is_empty());
    assert_eq!(target.clear(), 1);
    assert_eq!(target.take_destructed(), vec![vec![8u8]]);
    assert!(source.is_empty());
    assert!(target.is_empty());
}

#[test]
fn replaced_value_is_destructed_once() {
    let mut buffer = TypeErasedBuffer::new(layout(2, 1), true);
    buffer.push(&[1, 2]);
    buffer.replace_and_drop(0, &[3, 4]);
    let kept = buffer.replace(0, &[5, 6]);
    assert_eq!(kept, vec![3u8, 4]);
    assert_eq!(buffer.take_destructed(), vec![vec![1u8, 2]]);
    assert_eq!(buffer.get(0), Some(&[5u8, 6][..]));
}

#[test]
fn nothing_is_set_aside_without_destructor() {
    let mut buffer = TypeErasedBuffer::new(layout(1, 1), false);
    buffer.push(&[1]);
    buffer.push(&[2]);
    buffer.swap_remove_and_drop(0);
    buffer.replace_and_drop(0, &[3]);
    assert_eq!(buffer.clear(), 0);
    assert!(buffer.take_destructed().is_empty());
}

#[test]
fn clear_destructs_every_live_element_once() {
    let mut buffer = TypeErasedBuffer::new(layout(2, 2), true);
    buffer.push(&[1, 1]);
    buffer.push(&[2, 2]);
    buffer.push(&[3, 3]);
    assert_eq!(buffer.clear(), 3);
    assert_eq!(buffer.len(), 0);
    assert_eq!(buffer.clear(), 0);
    assert_eq!(buffer.take_destructed(), vec![vec![1u8, 1], vec![2, 2], vec![3, 3]]);
}

#[test]
fn clear_without_destructor_makes_no_calls() {
    let mut buffer = TypeErasedBuffer::new(layout(2, 2), false);
    buffer.push(&[1, 1]);
    buffer.push(&[2, 2]);
    assert_eq!(buffer.clear(), 0);
    assert!(buffer.is_empty());
}

#[test]
fn replace_returns_old_bytes() {
    let mut buffer = TypeErasedBuffer::new(layout(2, 1), false);
    buffer.push(&[1, 2]);
    buffer.push(&[3, 4]);
    let previous = buffer.replace(1, &[9, 9]);
    assert_eq!(previous, vec![3u8, 4]);
    assert_eq!(buffer.get(0), Some(&[1u8, 2][..]));
    assert_eq!(buffer.get(1), Some(&[9u8, 9][..]));
    buffer.replace_and_drop(0, &[8, 8]);
    assert_eq!(buffer.get(0), Some(&[8u8, 8][..]));
    assert_eq!(buffer.len(), 2);
}

#[test]
fn zero_sized_elements_are_counted() {
    let mut buffer = TypeErasedBuffer::new(layout(0, 1), false);
    buffer.push(&[]);
    buffer.push(&[]);
    assert_eq!(buffer.len(), 2);
    assert_eq!(buffer.get(1), Some(&[][..]));
    assert_eq!(buffer.swap_remove(0), Vec::<u8>::new());
    assert_eq!(buffer.len(), 1);
}

#[test]
fn buffer_grows_past_many_elements() {
    let mut buffer = TypeErasedBuffer::new(layout(4, 4), false);
    let mut i: u32 = 0;
    while i < 1000 {
        buffer.push(&i.to_le_bytes());
        i += 1;
    }
    assert_eq!(buffer.len(), 1000);
    assert_eq!(buffer.get(0), Some(&0u32.to_le_bytes()[..]));
    assert_eq!(buffer.get(999), Some(&999u32.to_le_bytes()[..]));
}

#[test]
fn capacity_doubles_when_full() {
    let mut buffer = TypeErasedBuffer::new(layout(2, 2), false);
    assert_eq!(buffer.capacity(), 0);
    buffer.push(&[1, 1]);
    assert_eq!(buffer.capacity(), 1);
    buffer.push(&[2, 2]);
    assert_eq!(buffer.capacity(), 2);
    buffer.push(&[3, 3]);
    assert_eq!(buffer.capacity(), 4);
    buffer.push(&[4, 4]);
    assert_eq!(buffer.capacity(), 4);
    buffer.push(&[5, 5]);
    assert_eq!(buffer.capacity(), 8);
    assert_eq!(buffer.len(), 5);
    buffer.swap_remove(0);
    assert_eq!(buffer.capacity(), 8);
    assert_eq!(buffer.get(0), Some(&[5u8, 5][..]));
    assert_eq!(buffer.get(3), Some(&[4u8, 4][..]));
    assert_eq!(buffer.get(4), None);
    buffer.clear();
    assert_eq!(buffer.capacity(), 0);
}

#[test]
fn zero_sized_capacity_is_unbounded() {
    let mut buffer = TypeErasedBuffer::new(layout(0, 1), true);
    assert_eq!(buffer.capacity(), usize::MAX);
    buffer.push(&[]);
    assert_eq!(buffer.capacity(), usize::MAX);
    assert_eq!(buffer.clear(), 1);
    assert_eq!(buffer.capacity(), usize::MAX);
}

#[test]
fn get_mut_writes_one_element() {
    let mut buffer = TypeErasedBuffer::new(layout(2, 1), false);
    buffer.push(&[1, 2]);
    buffer.push(&[3, 4]);
    buffer.push(&[5, 6]);
    {
        let bytes = buffer.get_mut(1).unwrap();
        assert_eq!(bytes, &mut [3u8, 4][..]);
        bytes[0] = 30;
        bytes[1] = 40;
    }
    assert!(buffer.get_mut(3).is_none());
    assert_eq!(buffer.get(0), Some(&[1u8, 2][..]));
    assert_eq!(buffer.get(1), Some(&[30u8, 40][..]));
    assert_eq!(buffer.get(2), Some(&[5u8, 6][..]));
    assert_eq!(buffer.len(), 3);
}
