//! Container-level behavior: priority ordering, FIFO within a level, and
//! the spinlock discipline.

use sched_core::spinlock::Spinlock;
use sched_core::task::{PriorityTaskQueue, HIGH_PRIO, IDLE_PRIO, NORMAL_PRIO};

#[test]
fn priority_queue_pops_by_priority_then_fifo() {
    // Pushing A at priority 1, B at priority 2, C at priority 1 yields
    // B (highest level), then A, then C (FIFO within level 1).
    let mut q = PriorityTaskQueue::new();
    q.push(10, 1);
    q.push(20, 2);
    q.push(30, 1);
    assert_eq!(q.pop(), Some(20));
    assert_eq!(q.pop(), Some(10));
    assert_eq!(q.pop(), Some(30));
    assert_eq!(q.pop(), None);
}

#[test]
fn priority_queue_empty_pops_none() {
    let mut q = PriorityTaskQueue::new();
    assert_eq!(q.pop(), None);
    assert_eq!(q.pop(), None);
}

#[test]
fn priority_queue_fifo_within_one_level() {
    let mut q = PriorityTaskQueue::new();
    q.push(1, NORMAL_PRIO);
    q.push(2, NORMAL_PRIO);
    q.push(3, NORMAL_PRIO);
    assert_eq!(q.pop(), Some(1));
    assert_eq!(q.pop(), Some(2));
    assert_eq!(q.pop(), Some(3));
    assert_eq!(q.pop(), None);
}

#[test]
fn priority_queue_highest_and_lowest_levels() {
    let mut q = PriorityTaskQueue::new();
    q.push(7, IDLE_PRIO);
    q.push(8, HIGH_PRIO);
    assert_eq!(q.pop(), Some(8));
    assert_eq!(q.pop(), Some(7));
}

#[test]
fn spinlock_guards_its_data() {
    let mut l = Spinlock::new(41u64);
    assert!(!l.is_held());
    l.lock();
    assert!(l.is_held());
    l.data = 42;
    l.unlock();
    assert!(!l.is_held());
    l.lock();
    assert_eq!(l.data, 42);
    l.unlock();
}
