use std::cell::Cell;
use std::rc::Rc;

use spsc_ring::spsc_queue::{is_power_of_two, new, next_power_of_two, RingBuffer};

#[test]
fn power_of_two_checks() {
    assert!(is_power_of_two(1));
    assert!(is_power_of_two(2));
    assert!(is_power_of_two(4));
    assert!(is_power_of_two(1024));
    assert!(!is_power_of_two(3));
    assert!(!is_power_of_two(6));
    assert!(!is_power_of_two(1000));
    // the zero of the bit test: no bit in common with its predecessor
    assert!(is_power_of_two(0));
    assert!(!is_power_of_two(-4));
}

#[test]
fn next_power_of_two_values() {
    assert_eq!(next_power_of_two(1), 1);
    assert_eq!(next_power_of_two(2), 2);
    assert_eq!(next_power_of_two(3), 4);
    assert_eq!(next_power_of_two(7), 8);
    assert_eq!(next_power_of_two(8), 8);
    assert_eq!(next_power_of_two(1000), 1024);
    assert_eq!(next_power_of_two(1024), 1024);
    assert_eq!(next_power_of_two(65535), 65536);
    assert_eq!(next_power_of_two(0x4000_0000), 0x4000_0000);
}

#[test]
fn capacity_rounds_up() {
    let r = RingBuffer::<i64>::new(7);
    assert_eq!(r.capacity(), 8);
    let r = RingBuffer::<i64>::new(1000);
    assert_eq!(r.capacity(), 1024);
    let r = RingBuffer::<i64>::new(1);
    assert_eq!(r.capacity(), 1);
}

#[test]
fn default_capacity_for_non_positive_requests() {
    let r = RingBuffer::<i64>::new(0);
    assert_eq!(r.capacity(), 1024);
    let r = RingBuffer::<i64>::new(-5);
    assert_eq!(r.capacity(), 1024);
}

#[test]
fn single_batch_in_order() {
    let mut r = RingBuffer::<i64>::new(1024);
    assert_eq!(r.capacity(), 1024);
    for i in 0..100 {
        r.push(i);
    }
    let got = r.batch_recv();
    let expected: Vec<i64> = (0..100).collect();
    assert_eq!(got, expected);
    assert_eq!(r.get_available_read(), 0);
}

#[test]
fn fill_to_capacity_then_drain_and_push_again() {
    let mut r = RingBuffer::<i64>::new(1000);
    assert_eq!(r.capacity(), 1024);
    for i in 0..1023 {
        r.push(i);
    }
    // one slot stays reserved: the ring is full after capacity - 1 pushes
    assert_eq!(r.get_available_read(), 1023);
    let got = r.batch_recv();
    let expected: Vec<i64> = (0..1023).collect();
    assert_eq!(got, expected);
    r.push(1023);
    assert_eq!(r.batch_recv(), vec![1023]);
}

#[test]
fn full_after_capacity_minus_one_pushes() {
    let mut r = RingBuffer::<i64>::new(4);
    assert_eq!(r.capacity(), 4);
    for i in 0..3 {
        r.push(i);
    }
    assert_eq!(r.get_available_read(), 3);
    assert_eq!(r.batch_recv(), vec![0, 1, 2]);
}

#[test]
fn interleaved_pushes_and_drains_keep_order() {
    let mut r = RingBuffer::<i64>::new(7);
    assert_eq!(r.capacity(), 8);
    let mut got: Vec<i64> = Vec::new();
    let mut next: i64 = 0;
    while next < 20 || r.get_available_read() > 0 {
        while next < 20 && r.get_available_read() < r.capacity() - 1 {
            r.push(next);
            next += 1;
        }
        got.extend(r.batch_recv());
    }
    let expected: Vec<i64> = (0..20).collect();
    assert_eq!(got, expected);
}

#[test]
fn duplicates_are_conserved() {
    let mut r = RingBuffer::<i64>::new(8);
    for v in [5, 5, 7, 1] {
        r.push(v);
    }
    assert_eq!(r.batch_recv(), vec![5, 5, 7, 1]);
}

#[test]
fn free_constructor_builds_a_working_ring() {
    let mut r = new::<i64>(8);
    assert_eq!(r.capacity(), 8);
    r.push(42);
    r.push(43);
    assert_eq!(r.batch_recv(), vec![42, 43]);
}

#[test]
fn empty_ring_drains_to_nothing() {
    let mut r = RingBuffer::<i64>::new(16);
    assert_eq!(r.get_available_read(), 0);
    assert_eq!(r.batch_recv(), Vec::<i64>::new());
}

struct Token {
    hits: Rc<Cell<usize>>,
}

impl Drop for Token {
    fn drop(&mut self) {
        self.hits.set(self.hits.get() + 1);
    }
}

#[test]
fn every_item_is_destroyed_exactly_once() {
    let hits = Rc::new(Cell::new(0usize));
    {
        let mut r = RingBuffer::<Token>::new(8);
        for _ in 0..5 {
            r.push(Token { hits: hits.clone() });
        }
        let got = r.batch_recv();
        assert_eq!(got.len(), 5);
        assert_eq!(hits.get(), 0);
        drop(got);
        assert_eq!(hits.get(), 5);
        for _ in 0..3 {
            r.push(Token { hits: hits.clone() });
        }
        // three items still resident when the ring itself is dropped
    }
    assert_eq!(hits.get(), 8);
}
