//! Recursive-mutex behavior: mutual exclusion, reentrancy, blocking on
//! contention, FIFO hand-over, and wait-queue priority.

use sched_core::recmutex::RecursiveMutex;
use sched_core::scheduler::System;
use sched_core::task::{TaskId, TaskState, NORMAL_PRIO};

/// One core with `n` tasks at the given priorities; dispatches the first.
fn boot_one_core(prios: &[usize]) -> (System, Vec<TaskId>) {
    let mut sys = System::new();
    let core = sys.add_current_core();
    let tids: Vec<TaskId> = prios.iter().map(|&p| sys.spawn(core, p)).collect();
    sys.scheduler(core);
    (sys, tids)
}

#[test]
fn new_mutex_is_unowned() {
    let m = RecursiveMutex::new();
    assert_eq!(m.state.data.current_tid, None);
    assert_eq!(m.state.data.count, 0);
    assert!(!m.state.held);
}

#[test]
fn acquire_of_free_mutex_takes_ownership_without_blocking() {
    let (mut sys, tids) = boot_one_core(&[NORMAL_PRIO]);
    let t = tids[0];
    let mut m = RecursiveMutex::new();
    assert!(m.acquire(&mut sys, 0));
    assert_eq!(m.state.data.current_tid, Some(t));
    assert_eq!(m.state.data.count, 1);
    assert_eq!(sys.tasks[t].state, TaskState::Running);
}

#[test]
fn reentrant_acquire_never_blocks_and_counts() {
    // Reentrancy: the owner re-acquires k times without blocking and must
    // release k times before the mutex is free again.
    let (mut sys, tids) = boot_one_core(&[NORMAL_PRIO]);
    let t = tids[0];
    let mut m = RecursiveMutex::new();
    let k = 4;
    for i in 1..=k {
        assert!(m.acquire(&mut sys, 0));
        assert_eq!(m.state.data.count, i);
        assert_eq!(sys.tasks[t].state, TaskState::Running);
    }
    for i in (1..k).rev() {
        m.release(&mut sys);
        assert_eq!(m.state.data.count, i);
        assert_eq!(m.state.data.current_tid, Some(t));
    }
    m.release(&mut sys);
    assert_eq!(m.state.data.current_tid, None);
    assert_eq!(m.state.data.count, 0);
}

#[test]
fn contended_acquire_blocks_and_release_hands_over() {
    // Mutual exclusion: while one task owns the mutex, another task's
    // acquire does not take ownership; it suspends until a release.
    let (mut sys, tids) = boot_one_core(&[NORMAL_PRIO, NORMAL_PRIO]);
    let (t1, t2) = (tids[0], tids[1]);
    let mut m = RecursiveMutex::new();
    assert_eq!(sys.schedulers[0].current_task, t1);
    assert!(m.acquire(&mut sys, 0));
    sys.scheduler(0);
    assert_eq!(sys.schedulers[0].current_task, t2);
    assert!(!m.acquire(&mut sys, 0));
    assert_eq!(m.state.data.current_tid, Some(t1));
    assert_eq!(sys.tasks[t2].state, TaskState::Blocked);
    assert_eq!(sys.schedulers[0].current_task, t1);
    m.release(&mut sys);
    assert_eq!(m.state.data.current_tid, None);
    assert_eq!(sys.tasks[t2].state, TaskState::Ready);
    sys.scheduler(0);
    assert_eq!(sys.schedulers[0].current_task, t2);
    // on resumption the woken task re-attempts and now succeeds
    assert!(m.acquire(&mut sys, 0));
    assert_eq!(m.state.data.current_tid, Some(t2));
}

#[test]
fn release_wakes_equal_priority_waiters_in_arrival_order() {
    // FIFO fairness: A, B, C block in that order; each hand-over wakes the
    // longest-waiting task first: A, then B, then C.
    let (mut sys, tids) = boot_one_core(&[NORMAL_PRIO; 4]);
    let (holder, a, b, c) = (tids[0], tids[1], tids[2], tids[3]);
    let mut m = RecursiveMutex::new();
    assert_eq!(sys.schedulers[0].current_task, holder);
    assert!(m.acquire(&mut sys, 0));
    sys.scheduler(0);
    for waiter in [a, b, c] {
        // each failed acquire suspends the caller and dispatches the next
        assert_eq!(sys.schedulers[0].current_task, waiter);
        assert!(!m.acquire(&mut sys, 0));
        assert_eq!(sys.tasks[waiter].state, TaskState::Blocked);
    }
    assert_eq!(sys.schedulers[0].current_task, holder);
    m.release(&mut sys);
    assert_eq!(sys.tasks[a].state, TaskState::Ready);
    assert_eq!(sys.tasks[b].state, TaskState::Blocked);
    assert_eq!(sys.tasks[c].state, TaskState::Blocked);
    sys.exit_current(0);
    assert_eq!(sys.schedulers[0].current_task, a);
    assert!(m.acquire(&mut sys, 0));
    m.release(&mut sys);
    assert_eq!(sys.tasks[b].state, TaskState::Ready);
    assert_eq!(sys.tasks[c].state, TaskState::Blocked);
    sys.exit_current(0);
    assert_eq!(sys.schedulers[0].current_task, b);
    assert!(m.acquire(&mut sys, 0));
    m.release(&mut sys);
    assert_eq!(sys.tasks[c].state, TaskState::Ready);
    sys.exit_current(0);
    assert_eq!(sys.schedulers[0].current_task, c);
}

#[test]
fn release_wakes_the_highest_priority_waiter_first() {
    // The wait queue is a priority queue: a higher-priority waiter is
    // served before a lower-priority one, whatever their arrival order.
    let (mut sys, tids) = boot_one_core(&[20, 3, 9]);
    let (holder, low, high) = (tids[0], tids[1], tids[2]);
    let mut m = RecursiveMutex::new();
    assert_eq!(sys.schedulers[0].current_task, holder);
    assert!(m.acquire(&mut sys, 0));
    // the holder waits on something else (a timed sleep); high runs first
    sys.block_current_task(0, Some(5));
    sys.scheduler(0);
    assert_eq!(sys.schedulers[0].current_task, high);
    assert!(!m.acquire(&mut sys, 0));
    assert_eq!(sys.schedulers[0].current_task, low);
    assert!(!m.acquire(&mut sys, 0));
    // the timer collaborator wakes the holder; it resumes and releases
    sys.custom_wakeup(holder);
    sys.scheduler(0);
    assert_eq!(sys.schedulers[0].current_task, holder);
    m.release(&mut sys);
    assert_eq!(sys.tasks[high].state, TaskState::Ready);
    assert_eq!(sys.tasks[low].state, TaskState::Blocked);
}

#[test]
fn blocked_waiter_has_no_deadline() {
    // A mutex wait is indefinite: no timeout-driven wakeup is armed.
    let (mut sys, tids) = boot_one_core(&[NORMAL_PRIO, NORMAL_PRIO]);
    let t2 = tids[1];
    let mut m = RecursiveMutex::new();
    assert!(m.acquire(&mut sys, 0));
    sys.scheduler(0);
    assert!(!m.acquire(&mut sys, 0));
    assert_eq!(sys.tasks[t2].state, TaskState::Blocked);
    assert_eq!(sys.tasks[t2].wakeup_time, None);
}
