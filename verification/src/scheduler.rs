//! Per-core schedulers, the scheduler registry, and the dispatch machinery.
//!
//! [`System`] owns the arena of task records and the registry of per-core
//! [`Scheduler`] instances.  Every operation keeps the exclusivity invariant
//! [`System::wf`]: an alive task is owned by exactly one container — the
//! current slot of its home core while Running, exactly one ready queue while
//! Ready, exactly one blocked queue while Blocked — and a Finished task by
//! none.  The current slot may briefly keep pointing at a task that has
//! already been moved to a queue (between blocking or a wakeup and the next
//! dispatch); such a stale pointer owns nothing, and dispatch resolves it.

use crate::task::{
    after_pop, front_task, lemma_top_prio, queue_has_task, top_prio, BlockedTaskQueue, CoreId,
    PriorityTaskQueue, Task, TaskId, TaskState, IDLE_PRIO, NO_PRIORITIES,
};
use vstd::prelude::*;

verus! {

/// One core's scheduler: its current task, idle task, and the two queues.
pub struct Scheduler {
    /// The core this scheduler belongs to.
    pub core_id: CoreId,
    /// The task last dispatched on this core.
    pub current_task: TaskId,
    /// This core's idle task; never absent, so dispatch always has a target.
    pub idle_task: TaskId,
    /// Tasks that are Ready to run on this core.
    pub ready_queue: PriorityTaskQueue,
    /// Tasks blocked on this core, awaiting a wakeup.
    pub blocked_tasks: BlockedTaskQueue,
}

/// The whole scheduling state: the task arena and the scheduler registry.
///
/// The registry maps a core identifier to its scheduler by index; it grows
/// once per core during boot and is looked up afterwards, also from remote
/// cores performing a cross-core wakeup.
pub struct System {
    /// The task arena; a task's identifier is its index here.
    pub tasks: Vec<Task>,
    /// The scheduler registry; a core's identifier is its index here.
    pub schedulers: Vec<Scheduler>,
}

impl System {
    /// `t` indexes a task record of the arena.
    pub open spec fn valid_task_id(self, t: int) -> bool {
        0 <= t < self.tasks@.len()
    }

    /// `c` indexes a registered core.
    pub open spec fn valid_core_id(self, c: int) -> bool {
        0 <= c < self.schedulers@.len()
    }

    /// The task record with identifier `t`.
    pub open spec fn task_at(self, t: int) -> Task {
        self.tasks@[t]
    }

    /// Contents of core `c`'s ready queue, one sequence per priority level.
    pub open spec fn ready_of(self, c: int) -> Seq<Seq<TaskId>> {
        self.schedulers@[c].ready_queue@
    }

    /// Contents of core `c`'s blocked queue.
    pub open spec fn blocked_of(self, c: int) -> Seq<TaskId> {
        self.schedulers@[c].blocked_tasks@
    }

    /// Identifier of core `c`'s current task.
    pub open spec fn current_of(self, c: int) -> int {
        self.schedulers@[c].current_task as int
    }

    /// Identifier of core `c`'s idle task.
    pub open spec fn idle_of(self, c: int) -> int {
        self.schedulers@[c].idle_task as int
    }

    /// Home core of task `t`.
    pub open spec fn home_of(self, t: int) -> int {
        self.task_at(t).core_id as int
    }

    /// Task `t` is the idle task of its home core.
    pub open spec fn is_idle(self, t: int) -> bool {
        self.idle_of(self.home_of(t)) == t
    }

    /// Task `t` sits somewhere in core `c`'s ready queue.
    pub open spec fn in_ready(self, c: int, t: int) -> bool {
        exists|p: int, i: int|
            0 <= p < self.ready_of(c).len() && 0 <= i < self.ready_of(c)[p].len()
                && self.ready_of(c)[p][i] == t
    }

    /// Task `t` sits somewhere in core `c`'s blocked queue.
    pub open spec fn in_blocked(self, c: int, t: int) -> bool {
        exists|i: int| 0 <= i < self.blocked_of(c).len() && self.blocked_of(c)[i] == t
    }

    /// Structural facts about core `c`: the registry index matches, current
    /// and idle tasks are records of this core, the idle task sits at the
    /// lowest priority and is never Blocked or Finished, and the ready queue
    /// has its full set of levels.
    pub open spec fn wf_sched(self, c: int) -> bool {
        &&& self.schedulers@[c].core_id == c
        &&& self.valid_task_id(self.current_of(c))
        &&& self.valid_task_id(self.idle_of(c))
        &&& self.home_of(self.current_of(c)) == c
        &&& self.home_of(self.idle_of(c)) == c
        &&& self.task_at(self.idle_of(c)).prio == IDLE_PRIO
        &&& (self.task_at(self.idle_of(c)).state == TaskState::Ready || self.task_at(
            self.idle_of(c),
        ).state == TaskState::Running)
        &&& self.schedulers@[c].ready_queue.wf()
    }

    /// Structural facts about task `t`: the record knows its own identifier,
    /// its priority is in range and its home core is registered.
    pub open spec fn wf_task(self, t: int) -> bool {
        &&& self.task_at(t).id == t
        &&& self.task_at(t).prio < NO_PRIORITIES
        &&& self.valid_core_id(self.home_of(t))
    }

    /// The entry at level `p`, position `i` of core `c`'s ready queue is a
    /// Ready task of this core, at this priority, and never the idle task.
    pub open spec fn wf_ready_entry(self, c: int, p: int, i: int) -> bool {
        let t = self.ready_of(c)[p][i] as int;
        &&& self.valid_task_id(t)
        &&& self.home_of(t) == c
        &&& self.task_at(t).state == TaskState::Ready
        &&& self.task_at(t).prio == p
        &&& t != self.idle_of(c)
    }

    /// The entry at position `i` of core `c`'s blocked queue is a Blocked
    /// task of this core and never the idle task.
    pub open spec fn wf_blocked_entry(self, c: int, i: int) -> bool {
        let t = self.blocked_of(c)[i] as int;
        &&& self.valid_task_id(t)
        &&& self.home_of(t) == c
        &&& self.task_at(t).state == TaskState::Blocked
        &&& t != self.idle_of(c)
    }

    /// No task appears twice in core `c`'s ready queue.
    pub open spec fn ready_nodup(self, c: int) -> bool {
        forall|p: int, i: int, j: int|
            0 <= p < self.ready_of(c).len() && 0 <= i < self.ready_of(c)[p].len() && 0 <= j
                < self.ready_of(c)[p].len() && self.ready_of(c)[p][i] == self.ready_of(c)[p][j]
                ==> i == j
    }

    /// No task appears twice in core `c`'s blocked queue.
    pub open spec fn blocked_nodup(self, c: int) -> bool {
        forall|i: int, j: int|
            0 <= i < self.blocked_of(c).len() && 0 <= j < self.blocked_of(c).len()
                && self.blocked_of(c)[i] == self.blocked_of(c)[j] ==> i == j
    }

    /// An alive task is where its state says: Ready tasks (other than idle
    /// tasks) wait in their home core's ready queue, Blocked tasks in their
    /// home core's blocked queue, and a Running task is its home core's
    /// current task.
    pub open spec fn located(self, t: int) -> bool {
        &&& (self.task_at(t).state == TaskState::Ready && !self.is_idle(t) ==> self.in_ready(
            self.home_of(t),
            t,
        ))
        &&& (self.task_at(t).state == TaskState::Blocked ==> self.in_blocked(
            self.home_of(t),
            t,
        ))
        &&& (self.task_at(t).state == TaskState::Running ==> self.current_of(self.home_of(t))
            == t)
    }

    /// Core `c`'s current task is Running and is not the idle task, so the
    /// next dispatch returns it to the ready queue (a voluntary yield).
    pub open spec fn yields_current(self, c: int) -> bool {
        self.current_of(c) != self.idle_of(c) && self.task_at(self.current_of(c)).state
            == TaskState::Running
    }

    /// Core `c`'s ready queue as dispatch sees it, after the current task has
    /// been returned to it if it was still Running.
    pub open spec fn ready_after_yield(self, c: int) -> Seq<Seq<TaskId>> {
        if self.yields_current(c) {
            let cur = self.schedulers@[c].current_task;
            let p = self.task_at(cur as int).prio as int;
            self.ready_of(c).update(p, self.ready_of(c)[p].push(cur))
        } else {
            self.ready_of(c)
        }
    }

    /// The task dispatch hands the core to next: the front of the highest
    /// non-empty ready level after the yield, or the idle task if every level
    /// is empty — so the dispatch loop never faces an empty choice.
    pub open spec fn dispatch_target(self, c: int) -> int {
        if queue_has_task(self.ready_after_yield(c)) {
            front_task(self.ready_after_yield(c)) as int
        } else {
            self.idle_of(c)
        }
    }

    /// The exclusivity invariant of the whole system, preserved by every
    /// operation: every container entry is consistent with the task records,
    /// no task sits in a queue twice, and every alive task is owned by the
    /// one container its state names.
    pub open spec fn wf(self) -> bool {
        &&& forall|c: int| self.valid_core_id(c) ==> #[trigger] self.wf_sched(c)
        &&& forall|t: int| self.valid_task_id(t) ==> #[trigger] self.wf_task(t)
        &&& forall|c: int, p: int, i: int|
            self.valid_core_id(c) && 0 <= p < self.ready_of(c).len() && 0 <= i < self.ready_of(
                c,
            )[p].len() ==> #[trigger] self.wf_ready_entry(c, p, i)
        &&& forall|c: int, i: int|
            self.valid_core_id(c) && 0 <= i < self.blocked_of(c).len()
                ==> #[trigger] self.wf_blocked_entry(c, i)
        &&& forall|c: int| self.valid_core_id(c) ==> #[trigger] self.ready_nodup(c)
        &&& forall|c: int| self.valid_core_id(c) ==> #[trigger] self.blocked_nodup(c)
        &&& forall|t: int| self.valid_task_id(t) ==> #[trigger] self.located(t)
    }

    /// Creates a system with no cores and no tasks, as it stands before the
    /// first core boots.
    pub fn new() -> (s: System)
        ensures
            s.wf(),
            s.tasks@.len() == 0,
            s.schedulers@.len() == 0,
    {
        System { tasks: Vec::new(), schedulers: Vec::new() }
    }

    /// Boot-time registration of the next core: creates its scheduler and
    /// its idle task and enters both into the registry.  The idle task is
    /// dispatched at once, so the new core always has a current task.
    /// Returns the new core's identifier.
    pub fn add_current_core(&mut self) -> (core: CoreId)
        requires
            old(self).wf(),
            old(self).tasks@.len() < usize::MAX,
            old(self).schedulers@.len() < usize::MAX,
        ensures
            final(self).wf(),
            core == old(self).schedulers@.len(),
            final(self).schedulers@.len() == old(self).schedulers@.len() + 1,
            final(self).tasks@.len() == old(self).tasks@.len() + 1,
            forall|t: int|
                0 <= t < old(self).tasks@.len() ==> final(self).tasks@[t] == old(self).tasks@[t],
            forall|c: int|
                0 <= c < old(self).schedulers@.len() ==> #[trigger] same_sched(
                    *old(self),
                    *final(self),
                    c,
                ),
            final(self).tasks@[old(self).tasks@.len() as int] == (Task {
                id: old(self).tasks@.len() as usize,
                prio: IDLE_PRIO,
                core_id: core,
                state: TaskState::Running,
                wakeup_time: None,
            }),
            final(self).current_of(core as int) == old(self).tasks@.len(),
            final(self).idle_of(core as int) == old(self).tasks@.len(),
            forall|p: int| 0 <= p < NO_PRIORITIES ==> final(self).ready_of(core as int)[p].len() == 0,
            final(self).blocked_of(core as int).len() == 0,
    {
        let core = self.schedulers.len();
        let tid = self.tasks.len();
        self.tasks.push(
            Task {
                id: tid,
                prio: IDLE_PRIO,
                core_id: core,
                state: TaskState::Running,
                wakeup_time: None,
            },
        );
        self.schedulers.push(
            Scheduler {
                core_id: core,
                current_task: tid,
                idle_task: tid,
                ready_queue: PriorityTaskQueue::new(),
                blocked_tasks: BlockedTaskQueue::new(),
            },
        );
        proof {
            let o = *old(self);
            let s = *self;
            let nc = o.schedulers@.len() as int;
            assert forall|c: int| 0 <= c < nc implies s.schedulers@[c] == o.schedulers@[c] by {}
            assert forall|t: int| 0 <= t < o.tasks@.len() implies s.tasks@[t] == o.tasks@[t] by {}
            assert forall|c: int| s.valid_core_id(c) implies #[trigger] s.wf_sched(c) by {
                if c < nc {
                    assert(o.wf_sched(c));
                }
            }
            assert forall|t: int| s.valid_task_id(t) implies #[trigger] s.wf_task(t) by {
                if t < o.tasks@.len() {
                    assert(o.wf_task(t));
                }
            }
            assert forall|c: int, p: int, i: int|
                s.valid_core_id(c) && 0 <= p < s.ready_of(c).len() && 0 <= i < s.ready_of(
                    c,
                )[p].len() implies #[trigger] s.wf_ready_entry(c, p, i) by {
                if c < nc {
                    assert(o.wf_ready_entry(c, p, i));
                } else {
                    assert(s.ready_of(c)[p].len() == 0);
                }
            }
            assert forall|c: int, i: int|
                s.valid_core_id(c) && 0 <= i < s.blocked_of(c).len() implies #[trigger] s.wf_blocked_entry(
                c,
                i,
            ) by {
                if c < nc {
                    assert(o.wf_blocked_entry(c, i));
                } else {
                    assert(s.blocked_of(c).len() == 0);
                }
            }
            assert forall|c: int| s.valid_core_id(c) implies #[trigger] s.ready_nodup(c) by {
                if c < nc {
                    assert(s.ready_of(c) == o.ready_of(c));
                    assert(o.ready_nodup(c));
                } else {
                    assert forall|p: int| 0 <= p < s.ready_of(c).len() implies s.ready_of(
                        c,
                    )[p].len() == 0 by {}
                }
            }
            assert forall|c: int| s.valid_core_id(c) implies #[trigger] s.blocked_nodup(c) by {
                if c < nc {
                    assert(s.blocked_of(c) == o.blocked_of(c));
                    assert(o.blocked_nodup(c));
                } else {
                    assert(s.blocked_of(c).len() == 0);
                }
            }
            assert forall|c: int|
                0 <= c < o.schedulers@.len() implies #[trigger] same_sched(o, s, c) by {
                assert(s.schedulers@[c] == o.schedulers@[c]);
            }
            assert forall|t: int| s.valid_task_id(t) implies #[trigger] s.located(t) by {
                if t < o.tasks@.len() {
                    assert(o.located(t));
                    assert(o.wf_task(t));
                    let h = o.home_of(t);
                    assert(s.home_of(t) == h);
                    assert(s.schedulers@[h] == o.schedulers@[h]);
                    if o.task_at(t).state == TaskState::Ready && !o.is_idle(t) {
                        let (p, i) = choose|p: int, i: int|
                            0 <= p < o.ready_of(h).len() && 0 <= i < o.ready_of(h)[p].len()
                                && o.ready_of(h)[p][i] == t;
                        assert(s.ready_of(h)[p][i] == t);
                    }
                    if o.task_at(t).state == TaskState::Blocked {
                        let i = choose|i: int|
                            0 <= i < o.blocked_of(h).len() && o.blocked_of(h)[i] == t;
                        assert(s.blocked_of(h)[i] == t);
                    }
                }
            }
        }
        core
    }

    /// Creates a new task at priority `prio` with home core `core`, Ready,
    /// and enters it at the tail of that core's ready queue.  Returns the new
    /// task's identifier.  (The entry point and its argument prime the saved
    /// execution context, a hardware concern outside the model; a stack that
    /// cannot be allocated is fatal to the core, so no error path exists
    /// here.)
    pub fn spawn(&mut self, core: CoreId, prio: usize) -> (tid: TaskId)
        requires
            old(self).wf(),
            old(self).valid_core_id(core as int),
            prio < NO_PRIORITIES,
            old(self).tasks@.len() < usize::MAX,
        ensures
            final(self).wf(),
            tid == old(self).tasks@.len(),
            final(self).tasks@.len() == old(self).tasks@.len() + 1,
            forall|t: int|
                0 <= t < old(self).tasks@.len() ==> final(self).tasks@[t] == old(self).tasks@[t],
            final(self).tasks@[tid as int] == (Task {
                id: tid,
                prio: prio,
                core_id: core,
                state: TaskState::Ready,
                wakeup_time: None,
            }),
            same_scheds_except(*old(self), *final(self), core as int),
            final(self).current_of(core as int) == old(self).current_of(core as int),
            final(self).idle_of(core as int) == old(self).idle_of(core as int),
            final(self).blocked_of(core as int) == old(self).blocked_of(core as int),
            final(self).ready_of(core as int)[prio as int] == old(self).ready_of(
                core as int,
            )[prio as int].push(tid),
            forall|p: int|
                0 <= p < NO_PRIORITIES && p != prio ==> final(self).ready_of(core as int)[p] == old(
                    self,
                ).ready_of(core as int)[p],
    {
        let tid = self.tasks.len();
        self.tasks.push(
            Task {
                id: tid,
                prio: prio,
                core_id: core,
                state: TaskState::Ready,
                wakeup_time: None,
            },
        );
        proof {
            assert(old(self).wf_sched(core as int));
        }
        let s = &mut self.schedulers[core];
        s.ready_queue.push(tid, prio);
        proof {
            let o = *old(self);
            let s = *self;
            let co = core as int;
            assert forall|c: int|
                0 <= c < o.schedulers@.len() && c != co implies s.schedulers@[c]
                    == o.schedulers@[c] by {}
            assert forall|t: int| 0 <= t < o.tasks@.len() implies s.tasks@[t] == o.tasks@[t] by {}
            assert(s.schedulers@[co].core_id == o.schedulers@[co].core_id);
            assert(s.schedulers@[co].current_task == o.schedulers@[co].current_task);
            assert(s.schedulers@[co].idle_task == o.schedulers@[co].idle_task);
            assert(s.schedulers@[co].blocked_tasks == o.schedulers@[co].blocked_tasks);
            assert(s.ready_of(co)[prio as int] == o.ready_of(co)[prio as int].push(tid));
            assert forall|p: int|
                0 <= p < NO_PRIORITIES && p != prio implies s.ready_of(co)[p] == o.ready_of(
                co,
            )[p] by {}
            assert forall|c: int| s.valid_core_id(c) implies #[trigger] s.wf_sched(c) by {
                assert(o.wf_sched(c));
            }
            assert forall|t: int| s.valid_task_id(t) implies #[trigger] s.wf_task(t) by {
                if t < o.tasks@.len() {
                    assert(o.wf_task(t));
                }
            }
            assert forall|c: int, p: int, i: int|
                s.valid_core_id(c) && 0 <= p < s.ready_of(c).len() && 0 <= i < s.ready_of(
                    c,
                )[p].len() implies #[trigger] s.wf_ready_entry(c, p, i) by {
                assert(o.wf_sched(c));
                if c == core && p == prio && i == s.ready_of(c)[p].len() - 1 {
                } else {
                    assert(o.wf_ready_entry(c, p, i));
                }
            }
            assert forall|c: int, i: int|
                s.valid_core_id(c) && 0 <= i < s.blocked_of(c).len() implies #[trigger] s.wf_blocked_entry(
                c,
                i,
            ) by {
                assert(o.wf_blocked_entry(c, i));
            }
            assert forall|c: int| s.valid_core_id(c) implies #[trigger] s.ready_nodup(c) by {
                assert(o.ready_nodup(c));
                assert(o.wf_sched(c));
                if c != co {
                    assert(s.ready_of(c) == o.ready_of(c));
                }
                if c == core {
                    assert forall|p: int, i: int, j: int|
                        0 <= p < s.ready_of(c).len() && 0 <= i < s.ready_of(c)[p].len() && 0 <= j
                            < s.ready_of(c)[p].len() && s.ready_of(c)[p][i] == s.ready_of(c)[p][j]
                        implies i == j by {
                        if p == prio {
                            let last = s.ready_of(c)[p].len() - 1;
                            if i != j {
                                if i == last || j == last {
                                    let other = if i == last { j } else { i };
                                    assert(o.wf_ready_entry(c, p, other));
                                    assert((o.ready_of(c)[p][other] as int) < o.tasks@.len());
                                    assert(false);
                                }
                            }
                        }
                    }
                }
            }
            assert forall|c: int| s.valid_core_id(c) implies #[trigger] s.blocked_nodup(c) by {
                assert(s.blocked_of(c) == o.blocked_of(c));
                assert(o.blocked_nodup(c));
            }
            assert forall|c: int|
                0 <= c < o.schedulers@.len() && c != co implies #[trigger] same_sched(o, s, c) by {
                assert(s.schedulers@[c] == o.schedulers@[c]);
            }
            assert forall|t: int| s.valid_task_id(t) implies #[trigger] s.located(t) by {
                assert(o.wf_sched(co));
                if t < o.tasks@.len() {
                    assert(o.located(t));
                    assert(o.wf_task(t));
                    let h = o.home_of(t);
                    assert(s.home_of(t) == h);
                    if o.task_at(t).state == TaskState::Ready && !o.is_idle(t) {
                        let (p, i) = choose|p: int, i: int|
                            0 <= p < o.ready_of(h).len() && 0 <= i < o.ready_of(h)[p].len()
                                && o.ready_of(h)[p][i] == t;
                        assert(o.wf_ready_entry(h, p, i));
                        assert(s.ready_of(h)[p][i] == t);
                    }
                    if o.task_at(t).state == TaskState::Blocked {
                        let i = choose|i: int|
                            0 <= i < o.blocked_of(h).len() && o.blocked_of(h)[i] == t;
                        assert(s.blocked_of(h)[i] == t);
                    }
                } else {
                    let p = prio as int;
                    let i = s.ready_of(co)[p].len() - 1;
                    assert(s.ready_of(co)[p][i] == t);
                }
            }
        }
        tid
    }

    /// Suspends core `core`'s current task: marks it Blocked, records the
    /// requested wake deadline, and enters it into this core's blocked queue.
    /// The current slot keeps pointing at it until the next dispatch.  The
    /// idle task never blocks, so forward progress is always possible.
    pub fn block_current_task(&mut self, core: CoreId, wakeup_time: Option<u64>)
        requires
            old(self).wf(),
            old(self).valid_core_id(core as int),
            old(self).task_at(old(self).current_of(core as int)).state == TaskState::Running,
            old(self).current_of(core as int) != old(self).idle_of(core as int),
        ensures
            final(self).wf(),
            final(self).tasks@.len() == old(self).tasks@.len(),
            final(self).schedulers@.len() == old(self).schedulers@.len(),
            same_scheds_except(*old(self), *final(self), core as int),
            forall|t: int|
                0 <= t < old(self).tasks@.len() && t != old(self).current_of(core as int)
                    ==> final(self).tasks@[t] == old(self).tasks@[t],
            final(self).tasks@[old(self).current_of(core as int)] == (Task {
                state: TaskState::Blocked,
                wakeup_time: wakeup_time,
                ..old(self).tasks@[old(self).current_of(core as int)]
            }),
            final(self).current_of(core as int) == old(self).current_of(core as int),
            final(self).idle_of(core as int) == old(self).idle_of(core as int),
            final(self).ready_of(core as int) == old(self).ready_of(core as int),
            final(self).blocked_of(core as int) == old(self).blocked_of(core as int).push(
                old(self).schedulers@[core as int].current_task,
            ),
    {
        proof {
            assert(old(self).wf_sched(core as int));
        }
        let cur = self.schedulers[core].current_task;
        let mut t = self.tasks[cur];
        t.state = TaskState::Blocked;
        t.wakeup_time = wakeup_time;
        self.tasks.set(cur, t);
        let s = &mut self.schedulers[core];
        s.blocked_tasks.add(cur);
        proof {
            let o = *old(self);
            let s = *self;
            let co = core as int;
            let cu = cur as int;
            assert forall|c: int|
                0 <= c < o.schedulers@.len() && c != co implies s.schedulers@[c]
                    == o.schedulers@[c] by {}
            assert forall|t: int|
                0 <= t < o.tasks@.len() && t != cu implies s.tasks@[t] == o.tasks@[t] by {}
            assert(s.schedulers@[co].core_id == o.schedulers@[co].core_id);
            assert(s.schedulers@[co].current_task == o.schedulers@[co].current_task);
            assert(s.schedulers@[co].idle_task == o.schedulers@[co].idle_task);
            assert(s.ready_of(co) == o.ready_of(co));
            assert(s.blocked_of(co) == o.blocked_of(co).push(cur));
            assert forall|c: int|
                0 <= c < o.schedulers@.len() && c != co implies #[trigger] same_sched(o, s, c) by {
                assert(s.schedulers@[c] == o.schedulers@[c]);
            }
            assert forall|c: int| s.valid_core_id(c) implies #[trigger] s.wf_sched(c) by {
                assert(o.wf_sched(c));
            }
            assert forall|t: int| s.valid_task_id(t) implies #[trigger] s.wf_task(t) by {
                assert(o.wf_task(t));
            }
            assert forall|c: int, p: int, i: int|
                s.valid_core_id(c) && 0 <= p < s.ready_of(c).len() && 0 <= i < s.ready_of(
                    c,
                )[p].len() implies #[trigger] s.wf_ready_entry(c, p, i) by {
                assert(s.ready_of(c) == o.ready_of(c));
                assert(o.wf_ready_entry(c, p, i));
            }
            assert forall|c: int, i: int|
                s.valid_core_id(c) && 0 <= i < s.blocked_of(c).len() implies #[trigger] s.wf_blocked_entry(
                c,
                i,
            ) by {
                if c == co && i == s.blocked_of(c).len() - 1 {
                } else {
                    assert(o.wf_blocked_entry(c, i));
                }
            }
            assert forall|c: int| s.valid_core_id(c) implies #[trigger] s.ready_nodup(c) by {
                assert(s.ready_of(c) == o.ready_of(c));
                assert(o.ready_nodup(c));
            }
            assert forall|c: int| s.valid_core_id(c) implies #[trigger] s.blocked_nodup(c) by {
                assert(o.blocked_nodup(c));
                if c == co {
                    assert forall|i: int, j: int|
                        0 <= i < s.blocked_of(c).len() && 0 <= j < s.blocked_of(c).len()
                            && s.blocked_of(c)[i] == s.blocked_of(c)[j] implies i == j by {
                        let last = s.blocked_of(c).len() - 1;
                        if i != j && (i == last || j == last) {
                            let other = if i == last {
                                j
                            } else {
                                i
                            };
                            assert(o.wf_blocked_entry(c, other));
                            assert(false);
                        }
                    }
                } else {
                    assert(s.blocked_of(c) == o.blocked_of(c));
                }
            }
            assert forall|t: int| s.valid_task_id(t) implies #[trigger] s.located(t) by {
                assert(o.located(t));
                assert(o.wf_task(t));
                let h = o.home_of(t);
                assert(s.home_of(t) == h);
                if t == cu {
                    assert(s.blocked_of(co)[s.blocked_of(co).len() - 1] == t);
                } else {
                    if s.task_at(t).state == TaskState::Ready && !s.is_idle(t) {
                        let (p, i) = choose|p: int, i: int|
                            0 <= p < o.ready_of(h).len() && 0 <= i < o.ready_of(h)[p].len()
                                && o.ready_of(h)[p][i] == t;
                        assert(s.ready_of(h) == o.ready_of(h));
                        assert(s.ready_of(h)[p][i] == t);
                    }
                    if s.task_at(t).state == TaskState::Blocked {
                        let i = choose|i: int|
                            0 <= i < o.blocked_of(h).len() && o.blocked_of(h)[i] == t;
                        assert(s.blocked_of(h)[i] == t);
                    }
                }
            }
        }
    }

    /// Explicit wakeup of a blocked task, the operation every cross-core
    /// wakeup funnels through: removes `task_id` from its home core's blocked
    /// queue, marks it Ready, and enters it into its home core's ready queue
    /// — the home core's, whichever core executes the call.  Waking a task
    /// that is not blocked is a caller contract violation, excluded here.
    pub fn custom_wakeup(&mut self, task_id: TaskId)
        requires
            old(self).wf(),
            old(self).valid_task_id(task_id as int),
            old(self).task_at(task_id as int).state == TaskState::Blocked,
        ensures
            final(self).wf(),
            final(self).tasks@.len() == old(self).tasks@.len(),
            final(self).schedulers@.len() == old(self).schedulers@.len(),
            same_scheds_except(*old(self), *final(self), old(self).home_of(task_id as int)),
            forall|t: int|
                0 <= t < old(self).tasks@.len() && t != task_id ==> final(self).tasks@[t] == old(
                    self,
                ).tasks@[t],
            final(self).tasks@[task_id as int] == (Task {
                state: TaskState::Ready,
                wakeup_time: None,
                ..old(self).tasks@[task_id as int]
            }),
            final(self).current_of(old(self).home_of(task_id as int)) == old(self).current_of(
                old(self).home_of(task_id as int),
            ),
            final(self).idle_of(old(self).home_of(task_id as int)) == old(self).idle_of(
                old(self).home_of(task_id as int),
            ),
            final(self).ready_of(old(self).home_of(task_id as int))[old(self).task_at(
                task_id as int,
            ).prio as int] == old(self).ready_of(old(self).home_of(task_id as int))[old(self).task_at(
                task_id as int,
            ).prio as int].push(task_id),
            forall|p: int|
                0 <= p < NO_PRIORITIES && p != old(self).task_at(task_id as int).prio ==> final(self).ready_of(
                    old(self).home_of(task_id as int),
                )[p] == old(self).ready_of(old(self).home_of(task_id as int))[p],
            !final(self).in_blocked(old(self).home_of(task_id as int), task_id as int),
    {
        proof {
            assert(old(self).wf_task(task_id as int));
            assert(old(self).located(task_id as int));
            assert(old(self).wf_sched(old(self).home_of(task_id as int)));
        }
        let mut t = self.tasks[task_id];
        let home = t.core_id;
        t.state = TaskState::Ready;
        t.wakeup_time = None;
        self.tasks.set(task_id, t);
        let s = &mut self.schedulers[home];
        s.blocked_tasks.remove(task_id);
        s.ready_queue.push(task_id, t.prio);
        proof {
            let o = *old(self);
            let s = *self;
            let h = o.home_of(task_id as int);
            let tid = task_id as int;
            let prio = o.task_at(tid).prio as int;
            let ob = o.blocked_of(h);
            let k = choose|i: int|
                0 <= i < ob.len() && ob[i] == task_id && s.blocked_of(h) == ob.remove(i);
            assert(0 <= k < ob.len() && ob[k] == task_id && s.blocked_of(h) == ob.remove(k));
            assert forall|c: int|
                0 <= c < o.schedulers@.len() && c != h implies s.schedulers@[c]
                    == o.schedulers@[c] by {}
            assert forall|t: int|
                0 <= t < o.tasks@.len() && t != tid implies s.tasks@[t] == o.tasks@[t] by {}
            assert(s.schedulers@[h].core_id == o.schedulers@[h].core_id);
            assert(s.schedulers@[h].current_task == o.schedulers@[h].current_task);
            assert(s.schedulers@[h].idle_task == o.schedulers@[h].idle_task);
            assert(s.ready_of(h)[prio] == o.ready_of(h)[prio].push(task_id));
            assert forall|p: int|
                0 <= p < NO_PRIORITIES && p != prio implies s.ready_of(h)[p] == o.ready_of(
                h,
            )[p] by {}
            // the only occurrence of the task in the blocked queue was removed
            assert(o.blocked_nodup(h));
            assert forall|j: int| 0 <= j < s.blocked_of(h).len() implies s.blocked_of(h)[j]
                != task_id by {
                if j < k {
                    assert(ob[j] == s.blocked_of(h)[j]);
                } else {
                    assert(ob[j + 1] == s.blocked_of(h)[j]);
                }
            }
            assert forall|c: int|
                0 <= c < o.schedulers@.len() && c != h implies #[trigger] same_sched(o, s, c) by {
                assert(s.schedulers@[c] == o.schedulers@[c]);
            }
            assert forall|c: int| s.valid_core_id(c) implies #[trigger] s.wf_sched(c) by {
                assert(o.wf_sched(c));
            }
            assert forall|t: int| s.valid_task_id(t) implies #[trigger] s.wf_task(t) by {
                assert(o.wf_task(t));
            }
            assert forall|c: int, p: int, i: int|
                s.valid_core_id(c) && 0 <= p < s.ready_of(c).len() && 0 <= i < s.ready_of(
                    c,
                )[p].len() implies #[trigger] s.wf_ready_entry(c, p, i) by {
                if c == h && p == prio && i == s.ready_of(c)[p].len() - 1 {
                } else {
                    if c != h {
                        assert(s.ready_of(c) == o.ready_of(c));
                    }
                    assert(o.wf_ready_entry(c, p, i));
                    assert((o.ready_of(c)[p][i] as int) != tid);
                }
            }
            assert forall|c: int, i: int|
                s.valid_core_id(c) && 0 <= i < s.blocked_of(c).len() implies #[trigger] s.wf_blocked_entry(
                c,
                i,
            ) by {
                if c == h {
                    if i < k {
                        assert(o.wf_blocked_entry(c, i));
                        assert(s.blocked_of(c)[i] == ob[i]);
                    } else {
                        assert(o.wf_blocked_entry(c, i + 1));
                        assert(s.blocked_of(c)[i] == ob[i + 1]);
                    }
                    assert(s.blocked_of(c)[i] != task_id);
                } else {
                    assert(s.blocked_of(c) == o.blocked_of(c));
                    assert(o.wf_blocked_entry(c, i));
                    assert((o.blocked_of(c)[i] as int) != tid);
                }
            }
            assert forall|c: int| s.valid_core_id(c) implies #[trigger] s.ready_nodup(c) by {
                assert(o.ready_nodup(c));
                assert(o.wf_sched(c));
                if c == h {
                    assert forall|p: int, i: int, j: int|
                        0 <= p < s.ready_of(c).len() && 0 <= i < s.ready_of(c)[p].len() && 0 <= j
                            < s.ready_of(c)[p].len() && s.ready_of(c)[p][i] == s.ready_of(c)[p][j]
                        implies i == j by {
                        if p == prio {
                            let last = s.ready_of(c)[p].len() - 1;
                            if i != j && (i == last || j == last) {
                                let other = if i == last {
                                    j
                                } else {
                                    i
                                };
                                assert(o.wf_ready_entry(c, p, other));
                                assert(false);
                            }
                        }
                    }
                } else {
                    assert(s.ready_of(c) == o.ready_of(c));
                }
            }
            assert forall|c: int| s.valid_core_id(c) implies #[trigger] s.blocked_nodup(c) by {
                assert(o.blocked_nodup(c));
                if c == h {
                    assert forall|i: int, j: int|
                        0 <= i < s.blocked_of(c).len() && 0 <= j < s.blocked_of(c).len()
                            && s.blocked_of(c)[i] == s.blocked_of(c)[j] implies i == j by {
                        let bi = if i < k {
                            i
                        } else {
                            i + 1
                        };
                        let bj = if j < k {
                            j
                        } else {
                            j + 1
                        };
                        assert(s.blocked_of(c)[i] == ob[bi]);
                        assert(s.blocked_of(c)[j] == ob[bj]);
                    }
                } else {
                    assert(s.blocked_of(c) == o.blocked_of(c));
                }
            }
            assert forall|t: int| s.valid_task_id(t) implies #[trigger] s.located(t) by {
                assert(o.located(t));
                assert(o.wf_task(t));
                let th = o.home_of(t);
                assert(s.home_of(t) == th);
                if t == tid {
                    let last = s.ready_of(h)[prio].len() - 1;
                    assert(s.ready_of(h)[prio][last] == task_id);
                } else {
                    if s.task_at(t).state == TaskState::Ready && !s.is_idle(t) {
                        let (p, i) = choose|p: int, i: int|
                            0 <= p < o.ready_of(th).len() && 0 <= i < o.ready_of(th)[p].len()
                                && o.ready_of(th)[p][i] == t;
                        if th == h && p == prio {
                            assert(s.ready_of(th)[p][i] == t);
                        } else if th == h {
                            assert(s.ready_of(th)[p] == o.ready_of(th)[p]);
                            assert(s.ready_of(th)[p][i] == t);
                        } else {
                            assert(s.ready_of(th) == o.ready_of(th));
                            assert(s.ready_of(th)[p][i] == t);
                        }
                    }
                    if s.task_at(t).state == TaskState::Blocked {
                        let i = choose|i: int|
                            0 <= i < o.blocked_of(th).len() && o.blocked_of(th)[i] == t;
                        if th == h {
                            if i < k {
                                assert(s.blocked_of(th)[i] == t);
                            } else {
                                assert(ob[i] == t && i != k);
                                assert(s.blocked_of(th)[i - 1] == t);
                            }
                        } else {
                            assert(s.blocked_of(th)[i] == t);
                        }
                    }
                }
            }
        }
    }

    /// If the current task is still Running — a voluntary yield — marks it
    /// Ready and returns it to the tail of its priority's ready list.
    fn yield_current(&mut self, core: CoreId)
        requires
            old(self).wf(),
            old(self).valid_core_id(core as int),
        ensures
            final(self).wf(),
            final(self).tasks@.len() == old(self).tasks@.len(),
            final(self).schedulers@.len() == old(self).schedulers@.len(),
            same_scheds_except(*old(self), *final(self), core as int),
            final(self).current_of(core as int) == old(self).current_of(core as int),
            final(self).idle_of(core as int) == old(self).idle_of(core as int),
            final(self).blocked_of(core as int) == old(self).blocked_of(core as int),
            final(self).ready_of(core as int) == old(self).ready_after_yield(core as int),
            !final(self).yields_current(core as int),
            forall|t: int|
                0 <= t < old(self).tasks@.len() ==> final(self).tasks@[t] == (if old(
                    self,
                ).yields_current(core as int) && t == old(self).current_of(core as int) {
                    (Task { state: TaskState::Ready, ..old(self).tasks@[t] })
                } else {
                    old(self).tasks@[t]
                }),
    {
        proof {
            assert(old(self).wf_sched(core as int));
        }
        let cur = self.schedulers[core].current_task;
        let idle = self.schedulers[core].idle_task;
        let ct = self.tasks[cur];
        if cur != idle && ct.state == TaskState::Running {
            proof {
                assert(old(self).wf_task(cur as int));
            }
            let mut t = ct;
            t.state = TaskState::Ready;
            self.tasks.set(cur, t);
            let s = &mut self.schedulers[core];
            s.ready_queue.push(cur, t.prio);
            proof {
                let o = *old(self);
                let s = *self;
                let co = core as int;
                let cu = cur as int;
                let prio = o.task_at(cu).prio as int;
                assert(o.wf_task(cu));
                assert forall|c: int|
                    0 <= c < o.schedulers@.len() && c != co implies s.schedulers@[c]
                        == o.schedulers@[c] by {}
                assert forall|t: int|
                    0 <= t < o.tasks@.len() && t != cu implies s.tasks@[t] == o.tasks@[t] by {}
                assert(s.schedulers@[co].core_id == o.schedulers@[co].core_id);
                assert(s.schedulers@[co].current_task == o.schedulers@[co].current_task);
                assert(s.schedulers@[co].idle_task == o.schedulers@[co].idle_task);
                assert(s.blocked_of(co) == o.blocked_of(co));
                assert(s.ready_of(co)[prio] == o.ready_of(co)[prio].push(cur));
                assert forall|p: int|
                    0 <= p < NO_PRIORITIES && p != prio implies s.ready_of(co)[p] == o.ready_of(
                    co,
                )[p] by {}
                assert(s.ready_of(co) =~~= o.ready_after_yield(co));
                assert forall|c: int|
                    0 <= c < o.schedulers@.len() && c != co implies #[trigger] same_sched(
                        o,
                        s,
                        c,
                    ) by {
                    assert(s.schedulers@[c] == o.schedulers@[c]);
                }
                assert forall|c: int| s.valid_core_id(c) implies #[trigger] s.wf_sched(c) by {
                    assert(o.wf_sched(c));
                }
                assert forall|t: int| s.valid_task_id(t) implies #[trigger] s.wf_task(t) by {
                    assert(o.wf_task(t));
                }
                assert forall|c: int, p: int, i: int|
                    s.valid_core_id(c) && 0 <= p < s.ready_of(c).len() && 0 <= i < s.ready_of(
                        c,
                    )[p].len() implies #[trigger] s.wf_ready_entry(c, p, i) by {
                    if c == co && p == prio && i == s.ready_of(c)[p].len() - 1 {
                    } else {
                        if c != co {
                            assert(s.ready_of(c) == o.ready_of(c));
                        }
                        assert(o.wf_ready_entry(c, p, i));
                        assert((o.ready_of(c)[p][i] as int) != cu);
                    }
                }
                assert forall|c: int, i: int|
                    s.valid_core_id(c) && 0 <= i < s.blocked_of(c).len()
                    implies #[trigger] s.wf_blocked_entry(c, i) by {
                    assert(s.blocked_of(c) == o.blocked_of(c));
                    assert(o.wf_blocked_entry(c, i));
                    assert((o.blocked_of(c)[i] as int) != cu);
                }
                assert forall|c: int| s.valid_core_id(c) implies #[trigger] s.ready_nodup(c) by {
                    assert(o.ready_nodup(c));
                    assert(o.wf_sched(c));
                    if c == co {
                        assert forall|p: int, i: int, j: int|
                            0 <= p < s.ready_of(c).len() && 0 <= i < s.ready_of(c)[p].len() && 0
                                <= j < s.ready_of(c)[p].len() && s.ready_of(c)[p][i] == s.ready_of(
                                c,
                            )[p][j] implies i == j by {
                            if p == prio {
                                let last = s.ready_of(c)[p].len() - 1;
                                if i != j && (i == last || j == last) {
                                    let other = if i == last {
                                        j
                                    } else {
                                        i
                                    };
                                    assert(o.wf_ready_entry(c, p, other));
                                    assert(false);
                                }
                            }
                        }
                    } else {
                        assert(s.ready_of(c) == o.ready_of(c));
                    }
                }
                assert forall|c: int| s.valid_core_id(c) implies #[trigger] s.blocked_nodup(
                    c,
                ) by {
                    assert(s.blocked_of(c) == o.blocked_of(c));
                    assert(o.blocked_nodup(c));
                }
                assert forall|t: int| s.valid_task_id(t) implies #[trigger] s.located(t) by {
                    assert(o.located(t));
                    assert(o.wf_task(t));
                    let th = o.home_of(t);
                    assert(s.home_of(t) == th);
                    if t == cu {
                        let last = s.ready_of(co)[prio].len() - 1;
                        assert(s.ready_of(co)[prio][last] == cur);
                    } else {
                        if s.task_at(t).state == TaskState::Ready && !s.is_idle(t) {
                            let (p, i) = choose|p: int, i: int|
                                0 <= p < o.ready_of(th).len() && 0 <= i < o.ready_of(th)[p].len()
                                    && o.ready_of(th)[p][i] == t;
                            if th == co && p == prio {
                                assert(s.ready_of(th)[p][i] == t);
                            } else if th == co {
                                assert(s.ready_of(th)[p] == o.ready_of(th)[p]);
                                assert(s.ready_of(th)[p][i] == t);
                            } else {
                                assert(s.ready_of(th) == o.ready_of(th));
                                assert(s.ready_of(th)[p][i] == t);
                            }
                        }
                        if s.task_at(t).state == TaskState::Blocked {
                            let i = choose|i: int|
                                0 <= i < o.blocked_of(th).len() && o.blocked_of(th)[i] == t;
                            assert(s.blocked_of(th) == o.blocked_of(th));
                            assert(s.blocked_of(th)[i] == t);
                        }
                    }
                }
            }
        }
    }

    /// Pops the next Ready task — or falls back to the idle task when every
    /// level is empty — and makes it the Running current task of the core.
    fn dispatch_next(&mut self, core: CoreId)
        requires
            old(self).wf(),
            old(self).valid_core_id(core as int),
            !old(self).yields_current(core as int),
        ensures
            final(self).wf(),
            final(self).tasks@.len() == old(self).tasks@.len(),
            final(self).schedulers@.len() == old(self).schedulers@.len(),
            same_scheds_except(*old(self), *final(self), core as int),
            final(self).idle_of(core as int) == old(self).idle_of(core as int),
            final(self).blocked_of(core as int) == old(self).blocked_of(core as int),
            final(self).current_of(core as int) == old(self).dispatch_target(core as int),
            final(self).task_at(old(self).dispatch_target(core as int)).state
                == TaskState::Running,
            queue_has_task(old(self).ready_of(core as int)) ==> final(self).ready_of(core as int)
                == after_pop(old(self).ready_of(core as int)),
            !queue_has_task(old(self).ready_of(core as int)) ==> final(self).ready_of(
                core as int,
            ) == old(self).ready_of(core as int),
            forall|t: int|
                0 <= t < old(self).tasks@.len() ==> final(self).tasks@[t] == (if t == old(
                    self,
                ).dispatch_target(core as int) {
                    (Task { state: TaskState::Running, ..old(self).tasks@[t] })
                } else if t == old(self).current_of(core as int) && t == old(self).idle_of(
                    core as int,
                ) {
                    (Task { state: TaskState::Ready, ..old(self).tasks@[t] })
                } else {
                    old(self).tasks@[t]
                }),
    {
        proof {
            assert(old(self).wf_sched(core as int));
        }
        let cur = self.schedulers[core].current_task;
        let idle = self.schedulers[core].idle_task;
        let popped = {
            let s = &mut self.schedulers[core];
            s.ready_queue.pop()
        };
        match popped {
            Some(next) => {
                proof {
                    let o = *old(self);
                    let co = core as int;
                    lemma_top_prio(o.ready_of(co));
                    assert(o.wf_ready_entry(co, top_prio(o.ready_of(co)), 0));
                }
                {
                    let s = &mut self.schedulers[core];
                    s.current_task = next;
                }
                let mut t = self.tasks[next];
                t.state = TaskState::Running;
                self.tasks.set(next, t);
                if cur == idle {
                    let mut ti = self.tasks[idle];
                    ti.state = TaskState::Ready;
                    self.tasks.set(idle, ti);
                }
                proof {
                    let o = *old(self);
                    let s = *self;
                    let co = core as int;
                    let top = top_prio(o.ready_of(co));
                    let nxt = next as int;
                    let id = idle as int;
                    assert(o.wf_ready_entry(co, top, 0));
                    assert(nxt == o.dispatch_target(co));
                    assert forall|c: int|
                        0 <= c < o.schedulers@.len() && c != co implies s.schedulers@[c]
                            == o.schedulers@[c] by {}
                    assert forall|t: int|
                        0 <= t < o.tasks@.len() && t != nxt && !(cur == idle && t == id)
                        implies s.tasks@[t] == o.tasks@[t] by {}
                    assert(s.schedulers@[co].core_id == o.schedulers@[co].core_id);
                    assert(s.schedulers@[co].idle_task == o.schedulers@[co].idle_task);
                    assert(s.blocked_of(co) == o.blocked_of(co));
                    assert(s.ready_of(co) == after_pop(o.ready_of(co)));
                    assert(s.ready_of(co)[top] == o.ready_of(co)[top].drop_first());
                    assert forall|p: int|
                        0 <= p < NO_PRIORITIES && p != top implies s.ready_of(co)[p] == o.ready_of(
                        co,
                    )[p] by {}
                    assert forall|c: int|
                        0 <= c < o.schedulers@.len() && c != co implies #[trigger] same_sched(
                            o,
                            s,
                            c,
                        ) by {
                        assert(s.schedulers@[c] == o.schedulers@[c]);
                    }
                    assert forall|c: int| s.valid_core_id(c) implies #[trigger] s.wf_sched(c) by {
                        assert(o.wf_sched(c));
                        if c != co {
                            assert((o.idle_of(c) as int) != nxt);
                        }
                    }
                    assert forall|t: int| s.valid_task_id(t) implies #[trigger] s.wf_task(t) by {
                        assert(o.wf_task(t));
                    }
                    assert forall|c: int, p: int, i: int|
                        s.valid_core_id(c) && 0 <= p < s.ready_of(c).len() && 0 <= i < s.ready_of(
                            c,
                        )[p].len() implies #[trigger] s.wf_ready_entry(c, p, i) by {
                        assert(o.ready_nodup(c));
                        if c == co && p == top {
                            assert(s.ready_of(c)[p][i] == o.ready_of(c)[p][i + 1]);
                            assert(o.wf_ready_entry(c, p, i + 1));
                            assert((o.ready_of(c)[p][i + 1] as int) != nxt);
                        } else {
                            if c != co {
                                assert(s.ready_of(c) == o.ready_of(c));
                            }
                            assert(o.wf_ready_entry(c, p, i));
                            assert((o.ready_of(c)[p][i] as int) != nxt);
                        }
                    }
                    assert forall|c: int, i: int|
                        s.valid_core_id(c) && 0 <= i < s.blocked_of(c).len()
                        implies #[trigger] s.wf_blocked_entry(c, i) by {
                        assert(s.blocked_of(c) == o.blocked_of(c));
                        assert(o.wf_blocked_entry(c, i));
                        assert((o.blocked_of(c)[i] as int) != nxt);
                    }
                    assert forall|c: int| s.valid_core_id(c) implies #[trigger] s.ready_nodup(
                        c,
                    ) by {
                        assert(o.ready_nodup(c));
                        if c == co {
                            assert forall|p: int, i: int, j: int|
                                0 <= p < s.ready_of(c).len() && 0 <= i < s.ready_of(c)[p].len()
                                    && 0 <= j < s.ready_of(c)[p].len() && s.ready_of(c)[p][i]
                                    == s.ready_of(c)[p][j] implies i == j by {
                                if p == top {
                                    assert(s.ready_of(c)[p][i] == o.ready_of(c)[p][i + 1]);
                                    assert(s.ready_of(c)[p][j] == o.ready_of(c)[p][j + 1]);
                                }
                            }
                        } else {
                            assert(s.ready_of(c) == o.ready_of(c));
                        }
                    }
                    assert forall|c: int| s.valid_core_id(c) implies #[trigger] s.blocked_nodup(
                        c,
                    ) by {
                        assert(s.blocked_of(c) == o.blocked_of(c));
                        assert(o.blocked_nodup(c));
                    }
                    assert forall|t: int| s.valid_task_id(t) implies #[trigger] s.located(t) by {
                        assert(o.located(t));
                        assert(o.wf_task(t));
                        let th = o.home_of(t);
                        assert(s.home_of(t) == th);
                        if t == nxt {
                        } else if cur == idle && t == id {
                            assert(s.is_idle(t));
                        } else {
                            if s.task_at(t).state == TaskState::Ready && !s.is_idle(t) {
                                let (p, i) = choose|p: int, i: int|
                                    0 <= p < o.ready_of(th).len() && 0 <= i < o.ready_of(
                                        th,
                                    )[p].len() && o.ready_of(th)[p][i] == t;
                                if th == co && p == top {
                                    assert(o.ready_nodup(co));
                                    assert(i != 0);
                                    assert(s.ready_of(th)[p][i - 1] == t);
                                } else if th == co {
                                    assert(s.ready_of(th)[p] == o.ready_of(th)[p]);
                                    assert(s.ready_of(th)[p][i] == t);
                                } else {
                                    assert(s.ready_of(th) == o.ready_of(th));
                                    assert(s.ready_of(th)[p][i] == t);
                                }
                            }
                            if s.task_at(t).state == TaskState::Blocked {
                                let i = choose|i: int|
                                    0 <= i < o.blocked_of(th).len() && o.blocked_of(th)[i] == t;
                                assert(s.blocked_of(th) == o.blocked_of(th));
                                assert(s.blocked_of(th)[i] == t);
                            }
                        }
                    }
                }
                let _ = t;
            }
            None => {
                {
                    let s = &mut self.schedulers[core];
                    s.current_task = idle;
                }
                let mut ti = self.tasks[idle];
                ti.state = TaskState::Running;
                self.tasks.set(idle, ti);
                proof {
                    let o = *old(self);
                    let s = *self;
                    let co = core as int;
                    let id = idle as int;
                    assert(!queue_has_task(o.ready_of(co)));
                    assert(o.dispatch_target(co) == id);
                    assert forall|c: int|
                        0 <= c < o.schedulers@.len() && c != co implies s.schedulers@[c]
                            == o.schedulers@[c] by {}
                    assert forall|t: int|
                        0 <= t < o.tasks@.len() && t != id implies s.tasks@[t] == o.tasks@[t] by {}
                    assert(s.ready_of(co) == o.ready_of(co));
                    assert(s.blocked_of(co) == o.blocked_of(co));
                    assert forall|c: int|
                        0 <= c < o.schedulers@.len() && c != co implies #[trigger] same_sched(
                            o,
                            s,
                            c,
                        ) by {
                        assert(s.schedulers@[c] == o.schedulers@[c]);
                    }
                    assert forall|c: int| s.valid_core_id(c) implies #[trigger] s.wf_sched(c) by {
                        assert(o.wf_sched(c));
                        if c != co {
                            assert((o.idle_of(c) as int) != id);
                        }
                    }
                    assert forall|t: int| s.valid_task_id(t) implies #[trigger] s.wf_task(t) by {
                        assert(o.wf_task(t));
                    }
                    assert forall|c: int, p: int, i: int|
                        s.valid_core_id(c) && 0 <= p < s.ready_of(c).len() && 0 <= i < s.ready_of(
                            c,
                        )[p].len() implies #[trigger] s.wf_ready_entry(c, p, i) by {
                        assert(s.ready_of(c) == o.ready_of(c));
                        assert(o.wf_ready_entry(c, p, i));
                        assert((o.ready_of(c)[p][i] as int) != id);
                    }
                    assert forall|c: int, i: int|
                        s.valid_core_id(c) && 0 <= i < s.blocked_of(c).len()
                        implies #[trigger] s.wf_blocked_entry(c, i) by {
                        assert(s.blocked_of(c) == o.blocked_of(c));
                        assert(o.wf_blocked_entry(c, i));
                        assert((o.blocked_of(c)[i] as int) != id);
                    }
                    assert forall|c: int| s.valid_core_id(c) implies #[trigger] s.ready_nodup(
                        c,
                    ) by {
                        assert(s.ready_of(c) == o.ready_of(c));
                        assert(o.ready_nodup(c));
                    }
                    assert forall|c: int| s.valid_core_id(c) implies #[trigger] s.blocked_nodup(
                        c,
                    ) by {
                        assert(s.blocked_of(c) == o.blocked_of(c));
                        assert(o.blocked_nodup(c));
                    }
                    assert forall|t: int| s.valid_task_id(t) implies #[trigger] s.located(t) by {
                        assert(o.located(t));
                        assert(o.wf_task(t));
                        let th = o.home_of(t);
                        assert(s.home_of(t) == th);
                        if t == id {
                        } else {
                            if s.task_at(t).state == TaskState::Ready && !s.is_idle(t) {
                                let (p, i) = choose|p: int, i: int|
                                    0 <= p < o.ready_of(th).len() && 0 <= i < o.ready_of(
                                        th,
                                    )[p].len() && o.ready_of(th)[p][i] == t;
                                assert(s.ready_of(th) == o.ready_of(th));
                                assert(s.ready_of(th)[p][i] == t);
                            }
                            if s.task_at(t).state == TaskState::Blocked {
                                let i = choose|i: int|
                                    0 <= i < o.blocked_of(th).len() && o.blocked_of(th)[i] == t;
                                assert(s.blocked_of(th) == o.blocked_of(th));
                                assert(s.blocked_of(th)[i] == t);
                            }
                        }
                    }
                }
            }
        }
    }

    /// The task dispatch would pop with the ready queue as it stands, or the
    /// idle task if every level is empty.
    pub open spec fn pop_target(self, c: int) -> int {
        if queue_has_task(self.ready_of(c)) {
            front_task(self.ready_of(c)) as int
        } else {
            self.idle_of(c)
        }
    }

    /// Terminates the current task: marks it Finished — retiring its
    /// identifier for good — and dispatches the next Ready task, or the idle
    /// task.  On hardware the stack and context are returned to the
    /// allocator; the record stays in the arena so the identifier is never
    /// reused.  The idle task never exits.
    pub fn exit_current(&mut self, core: CoreId)
        requires
            old(self).wf(),
            old(self).valid_core_id(core as int),
            old(self).task_at(old(self).current_of(core as int)).state == TaskState::Running,
            old(self).current_of(core as int) != old(self).idle_of(core as int),
        ensures
            final(self).wf(),
            final(self).tasks@.len() == old(self).tasks@.len(),
            final(self).schedulers@.len() == old(self).schedulers@.len(),
            same_scheds_except(*old(self), *final(self), core as int),
            final(self).idle_of(core as int) == old(self).idle_of(core as int),
            final(self).blocked_of(core as int) == old(self).blocked_of(core as int),
            final(self).current_of(core as int) == old(self).pop_target(core as int),
            final(self).task_at(old(self).pop_target(core as int)).state == TaskState::Running,
            final(self).task_at(old(self).current_of(core as int)).state == TaskState::Finished,
            queue_has_task(old(self).ready_of(core as int)) ==> final(self).ready_of(core as int)
                == after_pop(old(self).ready_of(core as int)),
            !queue_has_task(old(self).ready_of(core as int)) ==> final(self).ready_of(
                core as int,
            ) == old(self).ready_of(core as int),
            forall|t: int|
                0 <= t < old(self).tasks@.len() ==> final(self).tasks@[t] == (if t == old(
                    self,
                ).current_of(core as int) {
                    (Task { state: TaskState::Finished, ..old(self).tasks@[t] })
                } else if t == old(self).pop_target(core as int) {
                    (Task { state: TaskState::Running, ..old(self).tasks@[t] })
                } else {
                    old(self).tasks@[t]
                }),
    {
        proof {
            assert(old(self).wf_sched(core as int));
        }
        let cur = self.schedulers[core].current_task;
        let mut t = self.tasks[cur];
        t.state = TaskState::Finished;
        self.tasks.set(cur, t);
        proof {
            let o = *old(self);
            let s = *self;
            let co = core as int;
            let cu = cur as int;
            assert(s.schedulers@ == o.schedulers@);
            assert forall|t: int|
                0 <= t < o.tasks@.len() && t != cu implies s.tasks@[t] == o.tasks@[t] by {}
            assert forall|c: int| s.valid_core_id(c) implies #[trigger] s.wf_sched(c) by {
                assert(o.wf_sched(c));
                if c != co {
                    assert((o.idle_of(c) as int) != cu);
                }
            }
            assert forall|t: int| s.valid_task_id(t) implies #[trigger] s.wf_task(t) by {
                assert(o.wf_task(t));
            }
            assert forall|c: int, p: int, i: int|
                s.valid_core_id(c) && 0 <= p < s.ready_of(c).len() && 0 <= i < s.ready_of(
                    c,
                )[p].len() implies #[trigger] s.wf_ready_entry(c, p, i) by {
                assert(o.wf_ready_entry(c, p, i));
                assert((o.ready_of(c)[p][i] as int) != cu);
            }
            assert forall|c: int, i: int|
                s.valid_core_id(c) && 0 <= i < s.blocked_of(c).len()
                implies #[trigger] s.wf_blocked_entry(c, i) by {
                assert(o.wf_blocked_entry(c, i));
                assert((o.blocked_of(c)[i] as int) != cu);
            }
            assert forall|c: int| s.valid_core_id(c) implies #[trigger] s.ready_nodup(c) by {
                assert(o.ready_nodup(c));
            }
            assert forall|c: int| s.valid_core_id(c) implies #[trigger] s.blocked_nodup(c) by {
                assert(s.blocked_of(c) == o.blocked_of(c));
                assert(o.blocked_nodup(c));
            }
            assert forall|t: int| s.valid_task_id(t) implies #[trigger] s.located(t) by {
                assert(o.located(t));
                assert(o.wf_task(t));
                let th = o.home_of(t);
                assert(s.home_of(t) == th);
                if t != cu {
                    if s.task_at(t).state == TaskState::Ready && !s.is_idle(t) {
                        let (p, i) = choose|p: int, i: int|
                            0 <= p < o.ready_of(th).len() && 0 <= i < o.ready_of(th)[p].len()
                                && o.ready_of(th)[p][i] == t;
                        assert(s.ready_of(th) == o.ready_of(th));
                        assert(s.ready_of(th)[p][i] == t);
                    }
                    if s.task_at(t).state == TaskState::Blocked {
                        let i = choose|i: int|
                            0 <= i < o.blocked_of(th).len() && o.blocked_of(th)[i] == t;
                        assert(s.blocked_of(th) == o.blocked_of(th));
                        assert(s.blocked_of(th)[i] == t);
                    }
                }
            }
            assert(!s.yields_current(co));
        }
        let ghost m = *self;
        self.dispatch_next(core);
        proof {
            assert forall|c: int|
                0 <= c < old(self).schedulers@.len() && c != core as int
                implies #[trigger] same_sched(*old(self), *self, c) by {
                assert(same_sched(*old(self), m, c));
                assert(same_sched(m, *self, c));
            }
            let o = *old(self);
            let co = core as int;
            let cu = o.current_of(co);
            assert(m.schedulers@ == o.schedulers@);
            assert(m.dispatch_target(co) == o.pop_target(co));
            if queue_has_task(o.ready_of(co)) {
                lemma_top_prio(o.ready_of(co));
                assert(o.wf_ready_entry(co, top_prio(o.ready_of(co)), 0));
            }
            assert(o.pop_target(co) != cu);
        }
    }

    /// Registry lookup: the scheduler of core `core`, as a cross-core wakeup
    /// path reads it.  The registry is populated at boot and only read here
    /// afterwards.
    pub fn get_scheduler(&self, core: CoreId) -> (s: &Scheduler)
        requires
            self.valid_core_id(core as int),
        ensures
            *s == self.schedulers@[core as int],
    {
        &self.schedulers[core]
    }

    /// Identifier of core `core`'s current task.
    pub fn current_task(&self, core: CoreId) -> (t: TaskId)
        requires
            self.valid_core_id(core as int),
        ensures
            t as int == self.current_of(core as int),
    {
        self.schedulers[core].current_task
    }

    /// Lifecycle state of task `task_id`.
    pub fn task_state(&self, task_id: TaskId) -> (st: TaskState)
        requires
            self.valid_task_id(task_id as int),
        ensures
            st == self.task_at(task_id as int).state,
    {
        self.tasks[task_id].state
    }

    /// The dispatch and yield point, the only place control transfers: if the
    /// current task is still Running it is returned to the ready queue, then
    /// the highest-priority Ready task — or the idle task, if none — becomes
    /// the Running current task.  On hardware this is where the outgoing
    /// context is saved and the incoming one restored; the model records the
    /// ownership hand-off those primitives implement.
    pub fn scheduler(&mut self, core: CoreId)
        requires
            old(self).wf(),
            old(self).valid_core_id(core as int),
        ensures
            final(self).wf(),
            final(self).tasks@.len() == old(self).tasks@.len(),
            final(self).schedulers@.len() == old(self).schedulers@.len(),
            same_scheds_except(*old(self), *final(self), core as int),
            final(self).idle_of(core as int) == old(self).idle_of(core as int),
            final(self).blocked_of(core as int) == old(self).blocked_of(core as int),
            final(self).current_of(core as int) == old(self).dispatch_target(core as int),
            final(self).task_at(old(self).dispatch_target(core as int)).state
                == TaskState::Running,
            !queue_has_task(old(self).ready_after_yield(core as int)) ==> final(self).current_of(
                core as int,
            ) == old(self).idle_of(core as int),
            queue_has_task(old(self).ready_after_yield(core as int)) ==> final(self).ready_of(
                core as int,
            ) == after_pop(old(self).ready_after_yield(core as int)),
            !queue_has_task(old(self).ready_after_yield(core as int)) ==> final(self).ready_of(
                core as int,
            ) == old(self).ready_after_yield(core as int),
            forall|t: int|
                0 <= t < old(self).tasks@.len() ==> final(self).tasks@[t] == (if t == old(
                    self,
                ).dispatch_target(core as int) {
                    (Task { state: TaskState::Running, ..old(self).tasks@[t] })
                } else if old(self).yields_current(core as int) && t == old(self).current_of(
                    core as int,
                ) {
                    (Task { state: TaskState::Ready, ..old(self).tasks@[t] })
                } else if t == old(self).current_of(core as int) && t == old(self).idle_of(
                    core as int,
                ) {
                    (Task { state: TaskState::Ready, ..old(self).tasks@[t] })
                } else {
                    old(self).tasks@[t]
                }),
    {
        self.yield_current(core);
        let ghost m = *self;
        self.dispatch_next(core);
        proof {
            assert forall|c: int|
                0 <= c < old(self).schedulers@.len() && c != core as int
                implies #[trigger] same_sched(*old(self), *self, c) by {
                assert(same_sched(*old(self), m, c));
                assert(same_sched(m, *self, c));
            }
        }
    }
}

/// Exclusive ownership of every task: in a well-formed system, an alive task
/// is found in exactly one container.  A Running task is the current task of
/// its home core and sits in no queue; a Ready task (other than an idle task)
/// sits at exactly one position of its home core's ready queue and in no
/// other queue of any core; a Blocked task sits at exactly one position of
/// its home core's blocked queue and in no ready queue; a Finished task and
/// an idle task sit in no queue at all.
pub proof fn lemma_task_exclusive(s: System, t: int)
    requires
        s.wf(),
        s.valid_task_id(t),
    ensures
        s.task_at(t).state == TaskState::Running ==> s.current_of(s.home_of(t)) == t,
        s.task_at(t).state == TaskState::Ready && !s.is_idle(t) ==> s.in_ready(s.home_of(t), t),
        s.task_at(t).state == TaskState::Blocked ==> s.in_blocked(s.home_of(t), t),
        s.task_at(t).state != TaskState::Ready ==> forall|c: int|
            s.valid_core_id(c) ==> !s.in_ready(c, t),
        s.task_at(t).state != TaskState::Blocked ==> forall|c: int|
            s.valid_core_id(c) ==> !s.in_blocked(c, t),
        forall|c: int| s.valid_core_id(c) && c != s.home_of(t) ==> !s.in_ready(c, t),
        forall|c: int| s.valid_core_id(c) && c != s.home_of(t) ==> !s.in_blocked(c, t),
        s.is_idle(t) ==> forall|c: int| s.valid_core_id(c) ==> !s.in_ready(c, t),
        s.is_idle(t) ==> forall|c: int| s.valid_core_id(c) ==> !s.in_blocked(c, t),
        forall|p1: int, i1: int, p2: int, i2: int|
            (0 <= p1 < s.ready_of(s.home_of(t)).len() && 0 <= i1 < s.ready_of(s.home_of(t))[p1].len()
                && #[trigger] s.ready_of(s.home_of(t))[p1][i1] == t && 0 <= p2 < s.ready_of(
                s.home_of(t),
            ).len() && 0 <= i2 < s.ready_of(s.home_of(t))[p2].len() && #[trigger] s.ready_of(
                s.home_of(t),
            )[p2][i2] == t) ==> p1 == p2 && i1 == i2,
        forall|i1: int, i2: int|
            (0 <= i1 < s.blocked_of(s.home_of(t)).len() && #[trigger] s.blocked_of(s.home_of(t))[i1]
                == t && 0 <= i2 < s.blocked_of(s.home_of(t)).len() && #[trigger] s.blocked_of(
                s.home_of(t),
            )[i2] == t) ==> i1 == i2,
{
    assert(s.located(t));
    assert(s.wf_task(t));
    let h = s.home_of(t);
    assert(s.wf_sched(h));
    assert forall|c: int| s.valid_core_id(c) && (c != h || s.task_at(t).state != TaskState::Ready
        || s.is_idle(t)) implies !s.in_ready(c, t) by {
        if s.in_ready(c, t) {
            let (p, i) = choose|p: int, i: int|
                0 <= p < s.ready_of(c).len() && 0 <= i < s.ready_of(c)[p].len() && s.ready_of(
                    c,
                )[p][i] == t;
            assert(s.wf_ready_entry(c, p, i));
            assert(s.wf_sched(c));
            assert(false);
        }
    }
    assert forall|c: int|
        s.valid_core_id(c) && (c != h || s.task_at(t).state != TaskState::Blocked)
        implies !s.in_blocked(c, t) by {
        if s.in_blocked(c, t) {
            let i = choose|i: int| 0 <= i < s.blocked_of(c).len() && s.blocked_of(c)[i] == t;
            assert(s.wf_blocked_entry(c, i));
            assert(s.wf_sched(c));
            assert(false);
        }
    }
    assert forall|p1: int, i1: int, p2: int, i2: int|
        (0 <= p1 < s.ready_of(h).len() && 0 <= i1 < s.ready_of(h)[p1].len()
            && #[trigger] s.ready_of(h)[p1][i1] == t && 0 <= p2 < s.ready_of(h).len() && 0 <= i2
            < s.ready_of(h)[p2].len() && #[trigger] s.ready_of(h)[p2][i2] == t)
        implies p1 == p2 && i1 == i2 by {
        if s.valid_core_id(h) {
            assert(s.wf_ready_entry(h, p1, i1));
            assert(s.wf_ready_entry(h, p2, i2));
            assert(s.ready_nodup(h));
        }
    }
    assert forall|i1: int, i2: int|
        (0 <= i1 < s.blocked_of(h).len() && #[trigger] s.blocked_of(h)[i1] == t && 0 <= i2
            < s.blocked_of(h).len() && #[trigger] s.blocked_of(h)[i2] == t) implies i1 == i2 by {
        if s.valid_core_id(h) {
            assert(s.blocked_nodup(h));
        }
    }
}

/// Cores `a` and `b` see the same scheduler state for core `c`.
pub open spec fn same_sched(a: System, b: System, c: int) -> bool {
    &&& b.schedulers@[c].core_id == a.schedulers@[c].core_id
    &&& b.schedulers@[c].current_task == a.schedulers@[c].current_task
    &&& b.schedulers@[c].idle_task == a.schedulers@[c].idle_task
    &&& b.ready_of(c) == a.ready_of(c)
    &&& b.blocked_of(c) == a.blocked_of(c)
}

/// The registry is unchanged between `a` and `b`, except possibly core `c0`.
pub open spec fn same_scheds_except(a: System, b: System, c0: int) -> bool {
    &&& b.schedulers@.len() == a.schedulers@.len()
    &&& forall|c: int|
        0 <= c < a.schedulers@.len() && c != c0 ==> #[trigger] same_sched(a, b, c)
}

/// Task `t` has the same identifier, priority and home core in `a` and `b`;
/// only its state and wake deadline may differ.
pub open spec fn same_task_attrs(a: Task, b: Task) -> bool {
    &&& b.id == a.id
    &&& b.prio == a.prio
    &&& b.core_id == a.core_id
}

/// Every task record of `a` still exists in `b` with the same identifier,
/// priority and home core.
pub open spec fn same_all_task_attrs(a: System, b: System) -> bool {
    &&& b.tasks@.len() == a.tasks@.len()
    &&& forall|t: int|
        0 <= t < a.tasks@.len() ==> #[trigger] same_task_attrs(a.tasks@[t], b.tasks@[t])
}

} // verus!
