use std::cell::Cell;
use std::rc::Rc;

use nshrs::{FixedRingBuffer, RingBuffer};

#[test]
fn mod_new() {
    let rb = FixedRingBuffer::<i32, 16>::new();
    assert_eq!(rb.capacity(), 16);
    assert_eq!(rb.len(), 0);
    assert_eq!(rb.is_empty(), true);
    assert_eq!(rb.is_full(), false);
}

#[test]
fn mod_pop_empty() {
    let mut rb = FixedRingBuffer::<i32, 16>::new();
    let i = rb.pop_front();
    assert_eq!(i, None);
}

#[test]
fn mod_push_single() {
    let mut rb = FixedRingBuffer::<i32, 16>::new();
    rb.push_back(42);
    assert_eq!(rb.len(), 1);
    assert_eq!(rb.is_empty(), false);
    assert_eq!(rb.is_full(), false);
}

#[test]
fn mod_push_n() {
    let mut rb = FixedRingBuffer::<i32, 16>::new();
    for i in 1..=10 {
        rb.push_back(i);
        assert_eq!(rb.len(), i as usize);
        assert_eq!(rb.is_empty(), false);
        assert_eq!(rb.is_full(), false);
    }
}

#[test]
fn mod_push_n_full() {
    let mut rb = FixedRingBuffer::<i32, 16>::new();
    for i in 1..=16 {
        rb.push_back(i);
        assert_eq!(rb.len(), i as usize);
        assert_eq!(rb.is_empty(), false);
        if i == 16 {
            assert_eq!(rb.is_full(), true);
        } else {
            assert_eq!(rb.is_full(), false);
        }
    }
}

#[test]
fn mod_push_n_full_wrap_around() {
    let mut rb = FixedRingBuffer::<i32, 16>::new();
    for i in 1..=(rb.capacity() as i32) {
        rb.push_back(i);
        assert_eq!(rb.len(), i as usize);
        assert_eq!(rb.is_empty(), false);
        if i == 16 {
            assert_eq!(rb.is_full(), true);
        } else {
            assert_eq!(rb.is_full(), false);
        }
    }
    for i in 17..=22 {
        rb.push_back(i);
        assert_eq!(rb.len(), rb.capacity());
        assert_eq!(rb.is_empty(), false);
        assert_eq!(rb.is_full(), true);
    }
}

#[test]
fn iter_n() {
    let mut rb = FixedRingBuffer::<i32, 16>::new();
    for i in 1..=8 {
        rb.push_back(i);
        assert_eq!(rb.len(), i as usize);
        assert_eq!(rb.is_empty(), false);
    }
    let mut it = rb.iter();
    let mut i = 0;
    while let Some(element) = it.next() {
        assert_eq!(*element, (i + 1) as i32);
        i += 1;
    }
    assert_eq!(i, 8);
}

#[test]
fn fixed_ring_buffer_new() {
    let rb = FixedRingBuffer::<i32, 16>::new();
    assert_eq!(rb.capacity(), 16);
    assert_eq!(rb.len(), 0);
    assert_eq!(rb.is_empty(), true);
    assert_eq!(rb.is_full(), false);
}

#[test]
fn fixed_ring_buffer_pop_empty() {
    let mut rb = FixedRingBuffer::<i32, 16>::new();
    let i = rb.pop();
    assert_eq!(i, None);
}

#[test]
fn fixed_ring_buffer_push_single() {
    let mut rb = FixedRingBuffer::<i32, 16>::new();
    rb.push(42);
    assert_eq!(rb.len(), 1);
    assert_eq!(rb.is_empty(), false);
    assert_eq!(rb.is_full(), false);
}

#[test]
fn fixed_ring_buffer_push_n() {
    let mut rb = FixedRingBuffer::<i32, 16>::new();
    for i in 1..=10 {
        rb.push(i);
        assert_eq!(rb.len(), i as usize);
        assert_eq!(rb.is_empty(), false);
        assert_eq!(rb.is_full(), false);
    }
}

#[test]
fn fixed_ring_buffer_push_n_full() {
    let mut rb = FixedRingBuffer::<i32, 16>::new();
    for i in 1..=16 {
        rb.push(i);
        assert_eq!(rb.len(), i as usize);
        assert_eq!(rb.is_empty(), false);
        if i == 16 {
            assert_eq!(rb.is_full(), true);
        } else {
            assert_eq!(rb.is_full(), false);
        }
    }
}

#[test]
fn fixed_ring_buffer_push_n_full_wrap_around() {
    let mut rb = FixedRingBuffer::<i32, 16>::new();
    for i in 1..=(rb.capacity() as i32) {
        rb.push(i);
        assert_eq!(rb.len(), i as usize);
        assert_eq!(rb.is_empty(), false);
        if i == 16 {
            assert_eq!(rb.is_full(), true);
        } else {
            assert_eq!(rb.is_full(), false);
        }
    }
    for i in 17..=22 {
        rb.push(i);
        assert_eq!(rb.len(), rb.capacity());
        assert_eq!(rb.is_empty(), false);
        assert_eq!(rb.is_full(), true);
    }
}

fn contents<const CAP: usize>(rb: &FixedRingBuffer<i32, CAP>) -> Vec<i32> {
    let mut out = Vec::new();
    let mut it = rb.iter();
    while let Some(x) = it.next() {
        out.push(*x);
    }
    out
}

#[test]
fn pushes_within_capacity_keep_push_order() {
    let mut rb = FixedRingBuffer::<i32, 5>::new();
    for i in 0..5 {
        rb.push_back(i * 10);
        assert_eq!(rb.len(), (i + 1) as usize);
    }
    assert_eq!(contents(&rb), vec![0, 10, 20, 30, 40]);
}

#[test]
fn pushes_beyond_capacity_evict_oldest() {
    let mut rb = FixedRingBuffer::<i32, 16>::new();
    for i in 1..=22 {
        rb.push_back(i);
    }
    assert_eq!(rb.len(), 16);
    assert_eq!(contents(&rb), (7..=22).collect::<Vec<i32>>());
    assert_eq!(rb.front(), Some(&7));
    assert_eq!(rb.back(), Some(&22));
}

#[test]
fn oldest_survivor_after_many_pushes() {
    let mut rb = FixedRingBuffer::<i32, 3>::new();
    for i in 0..100 {
        rb.push_back(i);
        assert_eq!(rb.len(), std::cmp::min(i as usize + 1, 3));
        let expected_front = if i >= 3 { i - 2 } else { 0 };
        assert_eq!(rb.front(), Some(&expected_front));
    }
}

#[test]
fn popping_everything_returns_push_order() {
    let mut rb = FixedRingBuffer::<i32, 4>::new();
    for i in 1..=6 {
        rb.push_back(i);
    }
    let mut popped = Vec::new();
    while let Some(x) = rb.pop_front() {
        popped.push(x);
    }
    assert_eq!(popped, vec![3, 4, 5, 6]);
    assert_eq!(rb.len(), 0);
    assert!(rb.is_empty());
}

#[test]
fn empty_buffer_has_no_front_back_or_pop() {
    let mut rb = FixedRingBuffer::<i32, 8>::new();
    assert_eq!(rb.pop_front(), None);
    assert_eq!(rb.front(), None);
    assert_eq!(rb.back(), None);
    assert_eq!(rb.get(0), None);
}

#[test]
fn fill_with_constant_generator() {
    let mut rb = FixedRingBuffer::<i32, 4>::new();
    rb.push_back(1);
    rb.push_back(2);
    rb.fill_with(|| 7);
    assert_eq!(rb.len(), 4);
    assert!(rb.is_full());
    assert_eq!(contents(&rb), vec![7, 7, 7, 7]);
}

#[test]
fn fill_and_fill_with_default() {
    let mut rb = FixedRingBuffer::<i32, 3>::new();
    rb.fill(5);
    assert_eq!(contents(&rb), vec![5, 5, 5]);
    rb.fill_with_default();
    assert_eq!(contents(&rb), vec![0, 0, 0]);
}

#[test]
fn clear_is_idempotent() {
    let mut rb = FixedRingBuffer::<i32, 4>::new();
    rb.clear();
    assert_eq!(rb.len(), 0);
    for i in 0..6 {
        rb.push_back(i);
    }
    rb.clear();
    assert_eq!(rb.len(), 0);
    rb.clear();
    assert_eq!(rb.len(), 0);
    assert_eq!(rb.capacity(), 4);
    rb.push_back(9);
    assert_eq!(contents(&rb), vec![9]);
}

#[test]
fn borrowing_iterator_yields_length_elements() {
    let mut rb = FixedRingBuffer::<i32, 4>::new();
    for i in 1..=6 {
        rb.push_back(i);
    }
    let mut it = rb.iter();
    assert_eq!(it.len(), rb.len());
    let mut count = 0;
    while it.next().is_some() {
        count += 1;
    }
    assert_eq!(count, 4);
    assert_eq!(it.next(), None);
}

#[test]
fn iterator_walks_backwards() {
    let mut rb = FixedRingBuffer::<i32, 4>::new();
    for i in 1..=6 {
        rb.push_back(i);
    }
    let mut it = rb.iter();
    assert_eq!(it.next_back(), Some(&6));
    assert_eq!(it.next(), Some(&3));
    assert_eq!(it.next_back(), Some(&5));
    assert_eq!(it.next_back(), Some(&4));
    assert_eq!(it.next_back(), None);
    assert_eq!(it.next(), None);
}

#[test]
fn as_slices_splits_at_wraparound() {
    let mut rb = FixedRingBuffer::<i32, 4>::new();
    for i in 1..=3 {
        rb.push_back(i);
    }
    let (a, b) = rb.as_slices();
    assert_eq!(a.iter().map(|x| **x).collect::<Vec<i32>>(), vec![1, 2, 3]);
    assert!(b.is_empty());
    rb.push_back(4);
    rb.push_back(5);
    rb.push_back(6);
    let (a, b) = rb.as_slices();
    assert_eq!(a.iter().map(|x| **x).collect::<Vec<i32>>(), vec![3, 4]);
    assert_eq!(b.iter().map(|x| **x).collect::<Vec<i32>>(), vec![5, 6]);
}

#[test]
fn draining_iterator_empties_buffer() {
    let mut rb = FixedRingBuffer::<i32, 4>::new();
    for i in 1..=5 {
        rb.push_back(i);
    }
    let mut drain = rb.drain();
    assert_eq!(drain.next(), Some(2));
    assert_eq!(drain.next(), Some(3));
    let rest = drain.collect_all();
    assert_eq!(rest, vec![4, 5]);
    assert_eq!(rb.len(), 0);
    assert_eq!(rb.pop_front(), None);
}

#[test]
fn owning_iterator_yields_in_order() {
    let mut rb = FixedRingBuffer::<i32, 3>::new();
    for i in 1..=4 {
        rb.push_back(i);
    }
    let mut it = rb.into_iter();
    assert_eq!(it.next(), Some(2));
    assert_eq!(it.next(), Some(3));
    assert_eq!(it.next(), Some(4));
    assert_eq!(it.next(), None);
}

#[test]
fn equality_ignores_wraparound_position() {
    let mut a = FixedRingBuffer::<i32, 4>::new();
    let mut b = FixedRingBuffer::<i32, 4>::new();
    for i in 1..=3 {
        a.push_back(i);
    }
    for i in 0..=3 {
        b.push_back(i * 100);
    }
    for _ in 0..4 {
        b.pop_front();
    }
    for i in 1..=3 {
        b.push_back(i);
    }
    assert!(a == b);
    assert!(b == a);
    assert!(a == a);
    b.push_back(4);
    assert!(a != b);
    a.push_back(5);
    assert!(a != b);
}

#[test]
fn clone_keeps_logical_contents() {
    let mut rb = FixedRingBuffer::<i32, 3>::new();
    for i in 1..=5 {
        rb.push_back(i);
    }
    let copy = rb.clone();
    assert_eq!(contents(&copy), vec![3, 4, 5]);
    assert!(copy == rb);
}

#[test]
fn get_and_get_mut_address_logical_positions() {
    let mut rb = FixedRingBuffer::<i32, 3>::new();
    for i in 1..=5 {
        rb.push_back(i);
    }
    assert_eq!(rb.get(0), Some(&3));
    assert_eq!(rb.get(2), Some(&5));
    assert_eq!(rb.get(3), None);
    assert_eq!(*rb.index(1), 4);
    if let Some(x) = rb.get_mut(1) {
        *x = 40;
    }
    assert_eq!(rb.get_mut(3), None);
    if let Some(x) = rb.front_mut() {
        *x = 30;
    }
    if let Some(x) = rb.back_mut() {
        *x = 50;
    }
    assert_eq!(contents(&rb), vec![30, 40, 50]);
}

#[test]
fn contains_and_skip() {
    let mut rb = FixedRingBuffer::<i32, 3>::new();
    for i in 1..=4 {
        rb.push_back(i);
    }
    assert!(rb.contains(&2));
    assert!(rb.contains(&4));
    assert!(!rb.contains(&1));
    rb.skip();
    assert!(!rb.contains(&2));
    assert_eq!(contents(&rb), vec![3, 4]);
}

#[test]
fn extend_and_from_vec_keep_newest() {
    let mut rb = FixedRingBuffer::<i32, 3>::new();
    rb.push_back(1);
    rb.extend(vec![2, 3]);
    assert_eq!(contents(&rb), vec![1, 2, 3]);
    rb.extend(vec![4, 5]);
    assert_eq!(contents(&rb), vec![3, 4, 5]);
    let from = FixedRingBuffer::<i32, 3>::from_vec(vec![1, 2, 3, 4, 5, 6, 7]);
    assert_eq!(contents(&from), vec![5, 6, 7]);
}

#[test]
fn from_slice_clones_newest() {
    let values = [1, 2, 3, 4, 5];
    let rb = FixedRingBuffer::<i32, 3>::from_slice(&values);
    assert_eq!(contents(&rb), vec![3, 4, 5]);
    let short = FixedRingBuffer::<i32, 8>::from_slice(&values[..2]);
    assert_eq!(contents(&short), vec![1, 2]);
}

#[test]
fn from_str_keeps_newest_characters() {
    let rb = FixedRingBuffer::<char, 4>::from_str("héllo!");
    let mut out = String::new();
    let mut it = rb.iter();
    while let Some(c) = it.next() {
        out.push(*c);
    }
    assert_eq!(out, "llo!");
    let all = FixedRingBuffer::<char, 8>::from_str("ab");
    assert_eq!(all.len(), 2);
    assert_eq!(all.front(), Some(&'a'));
}

#[test]
fn dropping_a_drain_early_empties_buffer() {
    let mut rb = FixedRingBuffer::<i32, 4>::new();
    for i in 1..=3 {
        rb.push_back(i);
    }
    {
        let mut drain = rb.drain();
        assert_eq!(drain.next(), Some(1));
    }
    assert_eq!(rb.len(), 0);
    assert_eq!(rb.pop_front(), None);
    rb.push_back(7);
    assert_eq!(contents(&rb), vec![7]);
    let _ = rb.drain();
    assert!(rb.is_empty());
}

struct Counted {
    drops: Rc<Cell<usize>>,
}

impl Drop for Counted {
    fn drop(&mut self) {
        self.drops.set(self.drops.get() + 1);
    }
}

#[test]
fn every_element_is_released_once() {
    let drops = Rc::new(Cell::new(0));
    {
        let mut rb = FixedRingBuffer::<Counted, 3>::new();
        for _ in 0..5 {
            rb.push_back(Counted { drops: drops.clone() });
        }
        assert_eq!(drops.get(), 2);
        let popped = rb.pop_front();
        assert_eq!(drops.get(), 2);
        drop(popped);
        assert_eq!(drops.get(), 3);
        rb.clear();
        assert_eq!(drops.get(), 5);
        rb.push_back(Counted { drops: drops.clone() });
        rb.push_back(Counted { drops: drops.clone() });
        rb.push_back(Counted { drops: drops.clone() });
        {
            let mut drain = rb.drain();
            let first = drain.next();
            assert_eq!(drops.get(), 5);
            drop(first);
            assert_eq!(drops.get(), 6);
        }
        assert_eq!(drops.get(), 8);
        assert_eq!(rb.len(), 0);
        rb.push_back(Counted { drops: drops.clone() });
    }
    assert_eq!(drops.get(), 9);
}
