//! Scheduler and system behavior: boot registration, dispatch, blocking,
//! wakeup, cross-core hand-off, and the exclusivity of task ownership.

use sched_core::scheduler::System;
use sched_core::task::{TaskId, TaskState, NORMAL_PRIO};

/// How many times `task` appears across every queue of every core.
fn occurrences_in_queues(sys: &System, task: TaskId) -> usize {
    let mut n = 0;
    for s in sys.schedulers.iter() {
        for level in s.ready_queue.levels.iter() {
            n += level.iter().filter(|&&t| t == task).count();
        }
        n += s.blocked_tasks.tasks.iter().filter(|&&t| t == task).count();
    }
    n
}

#[test]
fn boot_registers_cores_with_running_idle_tasks() {
    let mut sys = System::new();
    let c0 = sys.add_current_core();
    let c1 = sys.add_current_core();
    assert_eq!(c0, 0);
    assert_eq!(c1, 1);
    for c in [c0, c1] {
        let idle = sys.schedulers[c].idle_task;
        assert_eq!(sys.schedulers[c].current_task, idle);
        assert_eq!(sys.tasks[idle].state, TaskState::Running);
        assert_eq!(sys.tasks[idle].core_id, c);
    }
}

#[test]
fn spawn_enqueues_a_ready_task_on_its_home_core() {
    let mut sys = System::new();
    let core = sys.add_current_core();
    let t = sys.spawn(core, NORMAL_PRIO);
    assert_eq!(sys.tasks[t].state, TaskState::Ready);
    assert_eq!(sys.tasks[t].core_id, core);
    assert_eq!(sys.tasks[t].prio, NORMAL_PRIO);
    assert_eq!(sys.schedulers[core].ready_queue.levels[NORMAL_PRIO], vec![t]);
    assert_eq!(occurrences_in_queues(&sys, t), 1);
}

#[test]
fn dispatch_with_empty_ready_queue_keeps_running_idle() {
    // Liveness: an empty ready queue always dispatches the idle task; the
    // loop itself never stops.
    let mut sys = System::new();
    let core = sys.add_current_core();
    let idle = sys.schedulers[core].idle_task;
    for _ in 0..5 {
        sys.scheduler(core);
        assert_eq!(sys.schedulers[core].current_task, idle);
        assert_eq!(sys.tasks[idle].state, TaskState::Running);
    }
}

#[test]
fn dispatch_round_robins_equal_priority_tasks() {
    let mut sys = System::new();
    let core = sys.add_current_core();
    let t1 = sys.spawn(core, NORMAL_PRIO);
    let t2 = sys.spawn(core, NORMAL_PRIO);
    sys.scheduler(core);
    assert_eq!(sys.schedulers[core].current_task, t1);
    sys.scheduler(core);
    assert_eq!(sys.schedulers[core].current_task, t2);
    assert_eq!(sys.tasks[t1].state, TaskState::Ready);
    sys.scheduler(core);
    assert_eq!(sys.schedulers[core].current_task, t1);
}

#[test]
fn dispatch_prefers_higher_priority() {
    let mut sys = System::new();
    let core = sys.add_current_core();
    let _low = sys.spawn(core, 4);
    let high = sys.spawn(core, 9);
    sys.scheduler(core);
    assert_eq!(sys.schedulers[core].current_task, high);
}

#[test]
fn block_then_wakeup_leaves_task_ready_exactly_once() {
    // No lost wakeup: add(task, None) followed at once by
    // custom_wakeup(task) leaves it Ready, queued exactly once, never stuck.
    let mut sys = System::new();
    let core = sys.add_current_core();
    let t = sys.spawn(core, NORMAL_PRIO);
    sys.scheduler(core);
    assert_eq!(sys.schedulers[core].current_task, t);
    sys.block_current_task(core, None);
    assert_eq!(sys.tasks[t].state, TaskState::Blocked);
    assert_eq!(sys.schedulers[core].blocked_tasks.tasks, vec![t]);
    sys.custom_wakeup(t);
    assert_eq!(sys.tasks[t].state, TaskState::Ready);
    assert_eq!(occurrences_in_queues(&sys, t), 1);
    assert!(sys.schedulers[core].blocked_tasks.tasks.is_empty());
    sys.scheduler(core);
    assert_eq!(sys.schedulers[core].current_task, t);
    assert_eq!(sys.tasks[t].state, TaskState::Running);
}

#[test]
fn block_records_the_wake_deadline() {
    let mut sys = System::new();
    let core = sys.add_current_core();
    let t = sys.spawn(core, NORMAL_PRIO);
    sys.scheduler(core);
    sys.block_current_task(core, Some(1_000));
    assert_eq!(sys.tasks[t].wakeup_time, Some(1_000));
    sys.custom_wakeup(t);
    assert_eq!(sys.tasks[t].wakeup_time, None);
}

#[test]
fn wakeup_lands_on_the_home_core() {
    // Cross-core correctness: a task of home core 1, woken while core 0's
    // code runs the wakeup, ends up Ready in core 1's queue, not core 0's.
    let mut sys = System::new();
    let c0 = sys.add_current_core();
    let c1 = sys.add_current_core();
    let t = sys.spawn(c1, NORMAL_PRIO);
    sys.scheduler(c1);
    assert_eq!(sys.schedulers[c1].current_task, t);
    sys.block_current_task(c1, None);
    sys.scheduler(c1);
    // core 0 performs the wakeup through the registry
    sys.custom_wakeup(t);
    assert_eq!(sys.tasks[t].state, TaskState::Ready);
    assert_eq!(sys.schedulers[c1].ready_queue.levels[NORMAL_PRIO], vec![t]);
    let on_core0: usize = sys.schedulers[c0]
        .ready_queue
        .levels
        .iter()
        .map(|l| l.len())
        .sum();
    assert_eq!(on_core0, 0);
}

#[test]
fn exit_retires_the_task_and_dispatches_away() {
    let mut sys = System::new();
    let core = sys.add_current_core();
    let idle = sys.schedulers[core].idle_task;
    let t = sys.spawn(core, NORMAL_PRIO);
    sys.scheduler(core);
    assert_eq!(sys.schedulers[core].current_task, t);
    sys.exit_current(core);
    assert_eq!(sys.tasks[t].state, TaskState::Finished);
    assert_eq!(sys.schedulers[core].current_task, idle);
    assert_eq!(occurrences_in_queues(&sys, t), 0);
}

#[test]
fn every_alive_task_sits_in_exactly_one_container() {
    // Exclusivity: across a mixed history, each alive task is either the
    // Running current task of its home core (and in no queue) or queued
    // exactly once; a Finished task is nowhere.
    let mut sys = System::new();
    let c0 = sys.add_current_core();
    let c1 = sys.add_current_core();
    let a = sys.spawn(c0, 3);
    let b = sys.spawn(c0, 9);
    let c = sys.spawn(c1, NORMAL_PRIO);
    sys.scheduler(c0);
    sys.scheduler(c1);
    sys.block_current_task(c1, None);
    sys.scheduler(c1);
    sys.custom_wakeup(c);
    for t in [a, b, c] {
        let is_current = sys
            .schedulers
            .iter()
            .any(|s| s.current_task == t && sys.tasks[t].state == TaskState::Running);
        let queued = occurrences_in_queues(&sys, t);
        if is_current {
            assert_eq!(queued, 0);
        } else {
            assert_eq!(queued, 1);
        }
    }
}

#[test]
fn registry_accessors_report_the_current_task() {
    let mut sys = System::new();
    let core = sys.add_current_core();
    let t = sys.spawn(core, NORMAL_PRIO);
    sys.scheduler(core);
    assert_eq!(sys.current_task(core), t);
    assert_eq!(sys.task_state(t), TaskState::Running);
    assert_eq!(sys.get_scheduler(core).core_id, core);
}
