use memvec::compact::{Backshift, FillGap};
use memvec::{HeapMemory, MemVec, Memory};

type HeapVec<T> = MemVec<'static, T, HeapMemory<T>>;

fn vec_of(items: &[u32]) -> HeapVec<u32> {
    let mut vec = MemVec::try_from_memory(HeapMemory::new(0u32)).unwrap();
    for item in items {
        vec.push(*item).unwrap();
    }
    vec
}

#[test]
fn retain_keeps_the_survivors_in_order() {
    let mut vec = vec_of(&[0, 1, 2, 3, 4, 5, 6, 7, 8, 9]);
    let capacity = vec.capacity();
    let mut seen = Vec::new();
    vec.retain(|x| {
        seen.push(*x);
        *x % 3 != 0
    });
    assert_eq!(seen, vec![0, 1, 2, 3, 4, 5, 6, 7, 8, 9]);
    assert_eq!(vec.deref(), &[1, 2, 4, 5, 7, 8]);
    assert_eq!(vec.len(), 6);
    assert_eq!(vec.capacity(), capacity);
}

#[test]
fn retain_of_all_or_none() {
    let mut vec = vec_of(&[1, 2, 3]);
    vec.retain(|_| true);
    assert_eq!(vec.deref(), &[1, 2, 3]);
    vec.retain(|_| false);
    assert_eq!(vec.len(), 0);
    vec.retain(|_| true);
    assert_eq!(vec.len(), 0);
}

#[test]
fn retain_matches_a_filter() {
    for seed in 0..50u32 {
        let items: Vec<u32> = (0..seed).map(|i| (i * 7 + seed) % 11).collect();
        let mut vec = vec_of(&items);
        vec.retain(|x| *x % 2 == 1);
        let expected: Vec<u32> = items.iter().copied().filter(|x| *x % 2 == 1).collect();
        assert_eq!(vec.deref(), expected.as_slice());
    }
}

#[test]
fn retain_mut_keeps_what_the_visit_left() {
    let mut vec = vec_of(&[1, 2, 3, 4, 5, 6]);
    vec.retain_mut(|x| {
        *x *= 10;
        *x != 30 && *x != 40
    });
    assert_eq!(vec.deref(), &[10, 20, 50, 60]);
}

#[test]
fn try_retain_mut_without_failure_is_retain_mut() {
    let mut vec = vec_of(&[1, 2, 3, 4, 5, 6]);
    let result: Result<(), &str> = vec.try_retain_mut(|x| {
        *x += 1;
        Ok(*x % 2 == 0)
    });
    assert_eq!(result, Ok(()));
    assert_eq!(vec.deref(), &[2, 4, 6]);
}

#[test]
fn try_retain_mut_closes_the_holes_when_the_predicate_fails() {
    let mut vec = vec_of(&[1, 2, 3, 4, 5, 6, 7]);
    let capacity = vec.capacity();
    let result = vec.try_retain_mut(|x| {
        if *x == 5 {
            *x = 50;
            Err("five")
        } else {
            Ok(*x % 2 == 1)
        }
    });
    assert_eq!(result, Err("five"));
    assert_eq!(vec.deref(), &[1, 3]);
    assert_eq!(vec.len(), 2);
    assert_eq!(&vec.as_slice()[..5], &[1, 3, 50, 6, 7]);
    assert_eq!(vec.capacity(), capacity);
}

#[test]
fn try_retain_mut_that_fails_at_once_keeps_nothing() {
    let mut vec = vec_of(&[1, 2, 3]);
    let result = vec.try_retain_mut(|_| Err::<bool, u8>(9));
    assert_eq!(result, Err(9));
    assert_eq!(vec.len(), 0);
    assert_eq!(&vec.as_slice()[..3], &[1, 2, 3]);
}

#[test]
fn try_retain_mut_that_fails_on_the_last_element_keeps_the_survivors() {
    let mut vec = vec_of(&[1, 2, 3, 4]);
    let result = vec.try_retain_mut(|x| if *x == 4 { Err(()) } else { Ok(*x != 1) });
    assert_eq!(result, Err(()));
    assert_eq!(vec.deref(), &[2, 3]);
    assert_eq!(&vec.as_slice()[..3], &[2, 3, 4]);
}

#[test]
fn dedup_removes_adjacent_repeats_only() {
    let mut vec = vec_of(&[1, 1, 2, 2, 2, 3, 1, 1]);
    let capacity = vec.capacity();
    vec.dedup();
    assert_eq!(vec.deref(), &[1, 2, 3, 1]);
    assert_eq!(vec.capacity(), capacity);
    vec.dedup();
    assert_eq!(vec.deref(), &[1, 2, 3, 1]);
}

#[test]
fn dedup_of_short_vectors() {
    let mut vec = vec_of(&[]);
    vec.dedup();
    assert_eq!(vec.len(), 0);
    let mut vec = vec_of(&[4]);
    vec.dedup();
    assert_eq!(vec.deref(), &[4]);
    let mut vec = vec_of(&[4, 4]);
    vec.dedup();
    assert_eq!(vec.deref(), &[4]);
}

#[test]
fn dedup_leaves_no_equal_neighbours() {
    for seed in 0..60u32 {
        let items: Vec<u32> = (0..seed).map(|i| ((i * i + seed) / 3) % 4).collect();
        let mut vec = vec_of(&items);
        vec.dedup();
        let mut expected = items.clone();
        expected.dedup();
        assert_eq!(vec.deref(), expected.as_slice());
        for pair in vec.deref().windows(2) {
            assert_ne!(pair[0], pair[1]);
        }
    }
}

#[test]
fn dedup_by_compares_with_the_last_element_kept() {
    let mut vec = vec_of(&[1, 2, 3, 10, 11, 20, 1]);
    let mut calls = Vec::new();
    vec.dedup_by(|cur, prev| {
        calls.push((*cur, *prev));
        *cur / 10 == *prev / 10
    });
    assert_eq!(vec.deref(), &[1, 10, 20, 1]);
    assert_eq!(
        calls,
        vec![(2, 1), (3, 1), (10, 1), (11, 10), (20, 10), (1, 20)]
    );
}

#[test]
fn dedup_by_keeps_what_the_comparison_left() {
    let mut vec = vec_of(&[1, 1, 1, 2, 2, 3]);
    vec.dedup_by(|cur, prev| {
        if *cur % 100 == *prev % 100 {
            *prev += 100;
            true
        } else {
            false
        }
    });
    assert_eq!(vec.deref(), &[201, 102, 3]);
}

#[test]
fn dedup_by_key_compares_keys() {
    let mut vec = vec_of(&[10, 11, 20, 21, 22, 30, 15]);
    vec.dedup_by_key(|x| *x / 10);
    assert_eq!(vec.deref(), &[10, 20, 30, 15]);
}

#[test]
fn try_dedup_by_without_failure_is_dedup_by() {
    let mut vec = vec_of(&[1, 1, 2, 3, 3]);
    let result: Result<(), &str> = vec.try_dedup_by(|cur, prev| Ok(*cur == *prev));
    assert_eq!(result, Ok(()));
    assert_eq!(vec.deref(), &[1, 2, 3]);
}

#[test]
fn try_dedup_by_closes_the_gap_when_the_comparison_fails() {
    let mut vec = vec_of(&[1, 1, 2, 2, 3, 3, 4]);
    let capacity = vec.capacity();
    let result = vec.try_dedup_by(|cur, prev| {
        if *cur == 3 {
            *cur = 30;
            *prev = 20;
            Err("three")
        } else {
            Ok(*cur == *prev)
        }
    });
    assert_eq!(result, Err("three"));
    assert_eq!(vec.deref(), &[1, 20, 30, 3, 4]);
    assert_eq!(vec.capacity(), capacity);
}

#[test]
fn a_backshift_pass_can_be_driven_by_hand() {
    let mut mem = HeapMemory::from_parts(vec![1u32, 2, 3, 4, 5, 0, 0], 5, 0);
    let mut pass = Backshift::begin(&mut mem);
    assert_eq!(mem.len(), 0);
    assert_eq!(pass.initial_len, 5);
    assert_eq!(pass.current(&mem), 1u32);
    pass.keep_current(&mut mem);
    assert_eq!(pass.current(&mem), 2u32);
    pass.discard_current();
    assert_eq!(pass.current(&mem), 3u32);
    pass.replace_current(&mut mem, 30u32);
    assert_eq!(pass.current(&mem), 4u32);
    pass.restore_current(&mut mem, 40u32);
    assert_eq!(pass.processed_len, 3);
    assert_eq!(pass.deleted_cnt, 1);
    pass.finish(&mut mem);
    assert_eq!(mem.len(), 2);
    assert_eq!(&mem.as_slice()[..4], &[1, 30, 40, 5]);
}

#[test]
fn a_fill_gap_pass_can_be_driven_by_hand() {
    let mut mem = HeapMemory::from_parts(vec![1u32, 1, 2, 3, 3, 4], 6, 0);
    let mut pass = FillGap::begin();
    assert_eq!(pass.current(&mem), 1u32);
    assert_eq!(pass.previous(&mem), 1u32);
    pass.skip_current();
    assert_eq!(pass.current(&mem), 2u32);
    pass.keep_current(&mut mem);
    assert_eq!(pass.previous(&mem), 2u32);
    pass.settle(&mut mem, 3u32, 20u32, false);
    assert_eq!((pass.read, pass.write), (4, 3));
    pass.settle(&mut mem, 3u32, 33u32, true);
    assert_eq!((pass.read, pass.write), (5, 3));
    pass.restore(&mut mem, 40u32, 34u32);
    pass.finish(&mut mem);
    assert_eq!(mem.len(), 4);
    assert_eq!(&mem.as_slice()[..4], &[1, 20, 34, 40]);
}
