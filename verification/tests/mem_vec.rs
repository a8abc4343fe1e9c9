use memvec::{BoundedMemory, HeapMemory, LimitExceeded, MemVec, Memory, MemoryConversionError};

type HeapVec<T> = MemVec<'static, T, HeapMemory<T>>;

fn heap_vec<T: Copy>(fill: T) -> HeapVec<T> {
    match MemVec::try_from_memory(HeapMemory::new(fill)) {
        Ok(vec) => vec,
        Err(_) => panic!("an empty heap buffer binds"),
    }
}

fn heap_vec_of(items: &[u32]) -> HeapVec<u32> {
    let mut vec = heap_vec(0u32);
    for item in items {
        vec.push(*item).unwrap();
    }
    vec
}

fn limited_vec<const LIMIT: usize>() -> MemVec<'static, u32, BoundedMemory<u32, LIMIT>> {
    match MemVec::try_from_memory(BoundedMemory::new(0u32)) {
        Ok(vec) => vec,
        Err(_) => panic!("an empty heap buffer binds"),
    }
}

#[test]
fn push_then_pop() {
    let mut vec = heap_vec(0u32);
    assert_eq!(vec.capacity(), 0);
    assert!(vec.is_empty());
    for i in 0..10u32 {
        vec.push(i).unwrap();
    }
    assert_eq!(vec.len(), 10);
    assert!(!vec.is_empty());
    assert_eq!(vec.deref(), &[0, 1, 2, 3, 4, 5, 6, 7, 8, 9]);
    assert_eq!(vec.pop(), Some(9));
    assert_eq!(vec.pop(), Some(8));
    assert_eq!(vec.len(), 8);
    assert_eq!(vec.deref(), &[0, 1, 2, 3, 4, 5, 6, 7]);
}

#[test]
fn pop_on_empty_is_none() {
    let mut vec = heap_vec(7u32);
    assert_eq!(vec.pop(), None);
    assert_eq!(vec.len(), 0);
    vec.push(1).unwrap();
    assert_eq!(vec.pop(), Some(1));
    assert_eq!(vec.pop(), None);
}

#[test]
fn push_grows_by_doubling_from_the_smallest_capacity() {
    let mut vec = heap_vec(0u32);
    let mut capacities = Vec::new();
    for i in 0..17u32 {
        vec.push(i).unwrap();
        capacities.push(vec.capacity());
    }
    assert_eq!(
        capacities,
        vec![4, 4, 4, 4, 8, 8, 8, 8, 16, 16, 16, 16, 16, 16, 16, 16, 32]
    );
}

#[test]
fn push_of_bytes_starts_with_eight() {
    let mut vec = heap_vec(0u8);
    vec.push(1).unwrap();
    assert_eq!(vec.capacity(), 8);
    for i in 0..8u8 {
        vec.push(i).unwrap();
    }
    assert_eq!(vec.capacity(), 16);
}

#[test]
fn push_of_large_elements_starts_with_one() {
    let mut vec = heap_vec([0u8; 2048]);
    vec.push([1u8; 2048]).unwrap();
    assert_eq!(vec.capacity(), 1);
    vec.push([2u8; 2048]).unwrap();
    assert_eq!(vec.capacity(), 2);
    vec.push([3u8; 2048]).unwrap();
    assert_eq!(vec.capacity(), 4);
}

#[test]
fn push_that_cannot_grow_changes_nothing() {
    let mut vec = limited_vec::<4>();
    for i in 0..4u32 {
        vec.push(i).unwrap();
    }
    assert_eq!(vec.capacity(), 4);
    assert_eq!(
        vec.push(4),
        Err(LimitExceeded {
            requested: 8,
            limit: 4
        })
    );
    assert_eq!(vec.len(), 4);
    assert_eq!(vec.capacity(), 4);
    assert_eq!(vec.deref(), &[0, 1, 2, 3]);
}

#[test]
fn insert_shifts_the_tail_up() {
    let mut vec = heap_vec_of(&[1, 2, 4, 5]);
    vec.insert(2, 3).unwrap();
    assert_eq!(vec.deref(), &[1, 2, 3, 4, 5]);
    vec.insert(0, 0).unwrap();
    assert_eq!(vec.deref(), &[0, 1, 2, 3, 4, 5]);
    vec.insert(6, 6).unwrap();
    assert_eq!(vec.deref(), &[0, 1, 2, 3, 4, 5, 6]);
}

#[test]
fn insert_that_cannot_grow_changes_nothing() {
    let mut vec = limited_vec::<4>();
    for i in 0..4u32 {
        vec.push(i).unwrap();
    }
    assert!(vec.insert(1, 9).is_err());
    assert_eq!(vec.deref(), &[0, 1, 2, 3]);
}

#[test]
fn remove_shifts_the_tail_down() {
    let mut vec = heap_vec_of(&[1, 2, 3, 4, 5]);
    assert_eq!(vec.remove(1), 2);
    assert_eq!(vec.deref(), &[1, 3, 4, 5]);
    assert_eq!(vec.remove(3), 5);
    assert_eq!(vec.deref(), &[1, 3, 4]);
    assert_eq!(vec.remove(0), 1);
    assert_eq!(vec.deref(), &[3, 4]);
}

#[test]
fn swap_remove_moves_the_last_element_in() {
    let mut vec = heap_vec_of(&[1, 2, 3, 4, 5]);
    assert_eq!(vec.swap_remove(1), 2);
    assert_eq!(vec.deref(), &[1, 5, 3, 4]);
    assert_eq!(vec.swap_remove(3), 4);
    assert_eq!(vec.deref(), &[1, 5, 3]);
}

#[test]
fn truncate_at_or_beyond_the_length_does_nothing() {
    let mut vec = heap_vec_of(&[1, 2, 3]);
    let capacity = vec.capacity();
    vec.truncate(3);
    assert_eq!(vec.deref(), &[1, 2, 3]);
    vec.truncate(10);
    assert_eq!(vec.deref(), &[1, 2, 3]);
    assert_eq!(vec.capacity(), capacity);
}

#[test]
fn truncate_drops_the_tail() {
    let mut vec = heap_vec_of(&[1, 2, 3, 4, 5]);
    let capacity = vec.capacity();
    vec.truncate(2);
    assert_eq!(vec.deref(), &[1, 2]);
    assert_eq!(vec.capacity(), capacity);
    vec.truncate(0);
    assert_eq!(vec.len(), 0);
}

#[test]
fn clear_keeps_the_capacity() {
    let mut vec = heap_vec_of(&[1, 2, 3, 4, 5]);
    vec.clear();
    assert!(vec.is_empty());
    assert_eq!(vec.capacity(), 8);
}

#[test]
fn set_len_uncovers_the_spare_capacity() {
    let mut vec = heap_vec_of(&[1, 2, 3]);
    vec.set_len(1);
    assert_eq!(vec.deref(), &[1]);
    vec.set_len(4);
    assert_eq!(vec.deref(), &[1, 2, 3, 0]);
}

#[test]
fn reserve_grows_to_at_least_twice_the_capacity() {
    let mut vec = heap_vec_of(&[1, 2, 3, 4, 5]);
    assert_eq!(vec.capacity(), 8);
    vec.reserve(3).unwrap();
    assert_eq!(vec.capacity(), 8);
    vec.reserve(4).unwrap();
    assert_eq!(vec.capacity(), 16);
    vec.try_reserve(100).unwrap();
    assert_eq!(vec.capacity(), 105);
    assert_eq!(vec.deref(), &[1, 2, 3, 4, 5]);
}

#[test]
fn reserve_exact_asks_for_no_more() {
    let mut vec = heap_vec_of(&[1, 2, 3, 4, 5]);
    vec.reserve_exact(3).unwrap();
    assert_eq!(vec.capacity(), 8);
    vec.reserve_exact(4).unwrap();
    assert_eq!(vec.capacity(), 9);
    vec.try_reserve_exact(10).unwrap();
    assert_eq!(vec.capacity(), 15);
    assert_eq!(vec.deref(), &[1, 2, 3, 4, 5]);
}

#[test]
fn reserve_for_push_doubles() {
    let mut vec = heap_vec_of(&[1, 2, 3, 4, 5]);
    let len = vec.len();
    vec.reserve_for_push(len).unwrap();
    assert_eq!(vec.capacity(), 16);
}

#[test]
fn reserve_beyond_the_limit_fails_and_changes_nothing() {
    let mut vec = limited_vec::<10>();
    vec.push(1).unwrap();
    assert_eq!(
        vec.reserve_exact(10),
        Err(LimitExceeded {
            requested: 11,
            limit: 10
        })
    );
    assert_eq!(vec.capacity(), 4);
    assert_eq!(vec.deref(), &[1]);
    assert!(vec.try_reserve(10).is_err());
    assert!(vec.reserve(10).is_err());
    assert!(vec.try_reserve_exact(10).is_err());
    vec.reserve_exact(9).unwrap();
    assert_eq!(vec.capacity(), 10);
}

#[test]
fn shrink_to_fit_sets_the_capacity_to_the_length() {
    let mut vec = heap_vec_of(&[1, 2, 3, 4, 5]);
    assert_eq!(vec.capacity(), 8);
    vec.shrink_to_fit().unwrap();
    assert_eq!(vec.capacity(), 5);
    assert_eq!(vec.deref(), &[1, 2, 3, 4, 5]);
    vec.shrink_to_fit().unwrap();
    assert_eq!(vec.capacity(), 5);
    assert_eq!(vec.deref(), &[1, 2, 3, 4, 5]);
}

#[test]
fn shrink_to_keeps_the_elements_and_the_floor() {
    let mut vec = heap_vec_of(&[1, 2, 3, 4, 5]);
    vec.reserve_exact(27).unwrap();
    assert_eq!(vec.capacity(), 32);
    vec.shrink_to(40).unwrap();
    assert_eq!(vec.capacity(), 32);
    vec.shrink_to(10).unwrap();
    assert_eq!(vec.capacity(), 10);
    vec.shrink_to(2).unwrap();
    assert_eq!(vec.capacity(), 5);
    assert_eq!(vec.deref(), &[1, 2, 3, 4, 5]);
}

#[test]
fn resize_with_appends_or_truncates() {
    let mut vec = heap_vec_of(&[1, 2, 3]);
    let mut next = 10u32;
    vec.resize_with(6, || {
        next += 1;
        next
    })
    .unwrap();
    assert_eq!(vec.deref(), &[1, 2, 3, 11, 12, 13]);
    assert_eq!(next, 13);
    vec.resize_with(2, || 0).unwrap();
    assert_eq!(vec.deref(), &[1, 2]);
    vec.resize_with(2, || 0).unwrap();
    assert_eq!(vec.deref(), &[1, 2]);
}

#[test]
fn resize_with_that_cannot_grow_changes_nothing() {
    let mut vec = limited_vec::<4>();
    vec.push(1).unwrap();
    assert!(vec.resize_with(5, || 9).is_err());
    assert_eq!(vec.deref(), &[1]);
    vec.resize_with(4, || 9).unwrap();
    assert_eq!(vec.deref(), &[1, 9, 9, 9]);
}

#[test]
fn slices_show_the_buffer_and_the_elements() {
    let mut vec = heap_vec_of(&[1, 2, 3]);
    assert_eq!(vec.as_slice(), &[1, 2, 3, 0]);
    assert_eq!(vec.deref(), &[1, 2, 3]);
    vec.as_mut_slice()[3] = 9;
    vec.deref_mut()[0] = 7;
    assert_eq!(vec.spare_capacity_mut(), &mut [9]);
    vec.spare_capacity_mut()[0] = 4;
    vec.set_len(4);
    assert_eq!(vec.deref(), &[7, 2, 3, 4]);
}

#[test]
fn the_memory_can_be_reached_and_taken_back() {
    let mut vec = heap_vec_of(&[1, 2, 3]);
    assert_eq!(vec.as_mem().len(), 3);
    assert_eq!(vec.as_mem().as_slice(), &[1, 2, 3, 0]);
    vec.as_mem_mut().set_len(2);
    assert_eq!(vec.deref(), &[1, 2]);
    let mem = vec.into_mem();
    assert_eq!(mem.len(), 2);
    assert!(mem.is_aligned());
}

#[test]
fn binding_checks_the_length_against_the_capacity() {
    let mem = HeapMemory::from_parts(vec![1u32, 2, 3], 4, 0);
    match MemVec::try_from_memory(mem) {
        Ok(_) => panic!("a length beyond the capacity must not bind"),
        Err((mem, error)) => {
            assert_eq!(error, MemoryConversionError::SizeMismatch);
            assert_eq!(mem.len(), 4);
            assert_eq!(mem.as_slice(), &[1, 2, 3]);
        }
    }
    let mem = HeapMemory::from_parts(vec![1u32, 2, 3], 3, 0);
    let vec = MemVec::try_from_memory(mem).unwrap();
    assert_eq!(vec.deref(), &[1, 2, 3]);
    assert_eq!(vec.capacity(), 3);
}

#[test]
fn elements_survive_unbinding_and_binding_again() {
    for n in 0..40u32 {
        let mut vec = heap_vec(0u32);
        for i in 0..n {
            vec.push(i * 3 + 1).unwrap();
        }
        let mem = vec.into_mem();
        let vec = MemVec::try_from_memory(mem).unwrap();
        assert_eq!(vec.len(), n as usize);
        let expected: Vec<u32> = (0..n).map(|i| i * 3 + 1).collect();
        assert_eq!(vec.deref(), expected.as_slice());
    }
}

#[test]
fn heap_memory_grows_with_the_filler_and_shrinks_exactly() {
    let mut mem = HeapMemory::new(7u32);
    assert_eq!(mem.reserve(3), Ok(()));
    assert_eq!(mem.as_slice(), &[7, 7, 7]);
    mem.as_mut_slice()[1] = 1;
    assert_eq!(mem.reserve(2), Ok(()));
    assert_eq!(mem.as_slice(), &[7, 1, 7]);
    assert_eq!(mem.reserve(5), Ok(()));
    assert_eq!(mem.as_slice(), &[7, 1, 7, 7, 7]);
    assert_eq!(mem.shrink(9), Ok(()));
    assert_eq!(mem.as_slice(), &[7, 1, 7, 7, 7]);
    assert_eq!(mem.shrink(2), Ok(()));
    assert_eq!(mem.as_slice(), &[7, 1]);
    assert_eq!(mem.len(), 0);
    mem.set_len(2);
    assert_eq!(mem.len(), 2);
}

#[test]
fn bounded_memory_grows_up_to_its_limit() {
    let mut mem = BoundedMemory::<u32, 5>::new(7);
    assert_eq!(mem.reserve(5), Ok(()));
    assert_eq!(mem.as_slice(), &[7, 7, 7, 7, 7]);
    assert_eq!(
        mem.reserve(6),
        Err(LimitExceeded {
            requested: 6,
            limit: 5
        })
    );
    assert_eq!(mem.as_slice(), &[7, 7, 7, 7, 7]);
    assert_eq!(mem.reserve(3), Ok(()));
    assert_eq!(mem.shrink(2), Ok(()));
    assert_eq!(mem.as_slice(), &[7, 7]);
    mem.set_len(1);
    assert_eq!(mem.len(), 1);
    assert!(mem.is_aligned());
    mem.as_mut_slice()[0] = 1;
    assert_eq!(mem.as_slice(), &[1, 7]);
}
