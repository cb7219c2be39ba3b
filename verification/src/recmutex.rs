//! The recursive mutex: ownership-counted mutual exclusion built from the
//! spinlock, a priority wait queue, the per-core blocked queues and the
//! scheduler registry.
//!
//! `acquire` is one attempt of the retry loop a blocking acquisition runs on
//! hardware: take the mutex if it is free or already owned by the caller,
//! otherwise enqueue the caller, suspend it and dispatch away.  A suspended
//! task re-attempts from scratch when it resumes, so a wakeup hands over an
//! opportunity, never ownership — re-validation after resumption is what
//! keeps the algorithm correct even under spurious wakeups.

use crate::scheduler::{same_scheds_except, System};
use crate::spinlock::Spinlock;
use crate::task::{
    after_pop, front_task, lemma_top_prio, queue_has_task, top_prio, CoreId, PriorityTaskQueue,
    Task, TaskId, TaskState, NO_PRIORITIES,
};
use vstd::prelude::*;

verus! {

/// The state a recursive mutex's spinlock protects.
pub struct RecursiveMutexState {
    /// The owning task, present exactly while the count is positive.
    pub current_tid: Option<TaskId>,
    /// How many times the owner has acquired without releasing.
    pub count: usize,
    /// Tasks suspended waiting for the mutex, served highest priority first
    /// and in arrival order within a priority.
    pub queue: PriorityTaskQueue,
}

/// An ownership-counted lock: the owner may re-acquire without blocking; any
/// other task is suspended until a release with count zero wakes it.
pub struct RecursiveMutex {
    /// The mutex state, guarded by a spinlock across the short state
    /// manipulations — never across a dispatch.
    pub state: Spinlock<RecursiveMutexState>,
}

impl RecursiveMutex {
    /// The owning task, if any.
    pub open spec fn owner(self) -> Option<TaskId> {
        self.state.data.current_tid
    }

    /// The recursive acquisition count.
    pub open spec fn count(self) -> int {
        self.state.data.count as int
    }

    /// Contents of the wait queue, one sequence per priority level.
    pub open spec fn waiters(self) -> Seq<Seq<TaskId>> {
        self.state.data.queue@
    }

    /// The mutex's own invariant: an owner is present exactly while the
    /// count is positive, the spinlock is free between operations, and the
    /// wait queue has its full set of levels.
    pub open spec fn inv(self) -> bool {
        &&& self.count() > 0 <==> self.owner() is Some
        &&& !self.state.held
        &&& self.state.data.queue.wf()
    }

    /// The waiter at level `p`, position `i` is a Blocked task of the
    /// system, waits at its own priority, and is not the owner.
    pub open spec fn wf_waiter(self, sys: System, p: int, i: int) -> bool {
        let w = self.waiters()[p][i] as int;
        &&& sys.valid_task_id(w)
        &&& sys.task_at(w).state == TaskState::Blocked
        &&& sys.task_at(w).prio == p
        &&& Some(self.waiters()[p][i]) != self.owner()
    }

    /// No task waits twice.
    pub open spec fn waiters_nodup(self) -> bool {
        forall|p: int, i: int, j: int|
            0 <= p < self.waiters().len() && 0 <= i < self.waiters()[p].len() && 0 <= j
                < self.waiters()[p].len() && self.waiters()[p][i] == self.waiters()[p][j] ==> i
                == j
    }

    /// The mutex agrees with the system: its own invariant holds, every
    /// waiter is a Blocked task waiting once at its own priority, and the
    /// owner never waits on its own mutex.
    pub open spec fn wf_for(self, sys: System) -> bool {
        &&& self.inv()
        &&& forall|p: int, i: int|
            0 <= p < self.waiters().len() && 0 <= i < self.waiters()[p].len()
                ==> #[trigger] self.wf_waiter(sys, p, i)
        &&& self.waiters_nodup()
    }

    /// Creates an unowned mutex with an empty wait queue.
    pub fn new() -> (m: Self)
        ensures
            m.inv(),
            m.owner() is None,
            m.count() == 0,
            forall|p: int| 0 <= p < NO_PRIORITIES ==> m.waiters()[p].len() == 0,
            m.waiters_nodup(),
    {
        RecursiveMutex {
            state: Spinlock::new(
                RecursiveMutexState {
                    current_tid: None,
                    count: 0,
                    queue: PriorityTaskQueue::new(),
                },
            ),
        }
    }

    /// One attempt by core `core`'s current task to take the mutex.
    ///
    /// If the mutex is free, the caller becomes its owner with count 1; if
    /// the caller already owns it, the count goes up — a reentrant
    /// acquisition that never blocks.  Either way the call returns `true`
    /// and leaves the system untouched.  Otherwise the caller is pushed onto
    /// the wait queue and its core's blocked queue (no deadline: the wait is
    /// indefinite), the core dispatches away, and the call returns `false`;
    /// the suspended task re-attempts when it resumes.
    pub fn acquire(&mut self, sys: &mut System, core: CoreId) -> (acquired: bool)
        requires
            old(self).wf_for(*old(sys)),
            old(sys).wf(),
            old(sys).valid_core_id(core as int),
            old(sys).task_at(old(sys).current_of(core as int)).state == TaskState::Running,
            old(sys).current_of(core as int) != old(sys).idle_of(core as int),
            old(self).count() < usize::MAX,
        ensures
            final(self).wf_for(*final(sys)),
            final(sys).wf(),
            acquired <==> (old(self).owner() is None || old(self).owner() == Some(
                old(sys).schedulers@[core as int].current_task,
            )),
            old(self).owner() is None ==> final(self).owner() == Some(
                old(sys).schedulers@[core as int].current_task,
            ) && final(self).count() == 1 && final(self).waiters() == old(self).waiters()
                && *final(sys) == *old(sys),
            old(self).owner() == Some(old(sys).schedulers@[core as int].current_task) ==> final(self).owner() == old(self).owner() && final(self).count() == old(self).count() + 1
                && final(self).waiters() == old(self).waiters() && *final(sys) == *old(sys),
            !acquired ==> final(self).owner() == old(self).owner() && final(self).count() == old(self).count(),
            !acquired ==> final(self).waiters()[old(sys).task_at(
                old(sys).current_of(core as int),
            ).prio as int] == old(self).waiters()[old(sys).task_at(
                old(sys).current_of(core as int),
            ).prio as int].push(old(sys).schedulers@[core as int].current_task),
            !acquired ==> forall|p: int|
                0 <= p < NO_PRIORITIES && p != old(sys).task_at(
                    old(sys).current_of(core as int),
                ).prio ==> final(self).waiters()[p] == old(self).waiters()[p],
            !acquired ==> final(sys).task_at(old(sys).current_of(core as int)).state
                == TaskState::Blocked && final(sys).in_blocked(
                core as int,
                old(sys).current_of(core as int),
            ),
            !acquired ==> final(sys).task_at(final(sys).current_of(core as int)).state
                == TaskState::Running,
            !acquired ==> final(sys).tasks@.len() == old(sys).tasks@.len() && final(sys).schedulers@.len() == old(sys).schedulers@.len() && same_scheds_except(
                *old(sys),
                *final(sys),
                core as int,
            ),
    {
        let tid = sys.schedulers[core].current_task;
        proof {
            assert(old(sys).wf_sched(core as int));
            assert(old(sys).wf_task(tid as int));
        }
        self.state.lock();
        let owner_opt = self.state.data.current_tid;
        match owner_opt {
            Some(owner) => {
                if owner == tid {
                    // Recursive acquisition by the owner: count goes up.
                    self.state.data.count = self.state.data.count + 1;
                    self.state.unlock();
                    proof {
                        assert(self.waiters() == old(self).waiters());
                        assert(old(self).waiters_nodup());
                        assert(self.waiters_nodup());
                        assert forall|p: int, i: int|
                            0 <= p < self.waiters().len() && 0 <= i < self.waiters()[p].len()
                            implies #[trigger] self.wf_waiter(*sys, p, i) by {
                            assert(old(self).wf_waiter(*old(sys), p, i));
                        }
                    }
                    return true;
                }
            },
            None => {
                // The mutex is free: the caller becomes its owner.
                self.state.data.current_tid = Some(tid);
                self.state.data.count = 1;
                self.state.unlock();
                proof {
                    assert(self.waiters() == old(self).waiters());
                    assert(old(self).waiters_nodup());
                    assert(self.waiters_nodup());
                    assert forall|p: int, i: int|
                        0 <= p < self.waiters().len() && 0 <= i < self.waiters()[p].len()
                        implies #[trigger] self.wf_waiter(*sys, p, i) by {
                        assert(old(self).wf_waiter(*old(sys), p, i));
                        // a waiter is Blocked while the caller is Running
                        assert(self.waiters()[p][i] != tid);
                    }
                }
                return true;
            },
        }
        // Held by another task: suspend the caller and queue it, then hand
        // the core to the next task.  The wakeup comes from a release.
        sys.block_current_task(core, None);
        let prio = sys.tasks[tid].prio;
        self.state.data.queue.push(tid, prio);
        self.state.unlock();
        let ghost m = *sys;
        sys.scheduler(core);
        proof {
            let o = *old(self);
            let so = *old(sys);
            let sf = *sys;
            let co = core as int;
            let ti = tid as int;
            let pr = so.task_at(ti).prio as int;
            assert forall|c: int|
                0 <= c < so.schedulers@.len() && c != co
                implies #[trigger] crate::scheduler::same_sched(so, sf, c) by {
                assert(crate::scheduler::same_sched(so, m, c));
                assert(crate::scheduler::same_sched(m, sf, c));
            }
            assert(sf.blocked_of(co) == m.blocked_of(co));
            assert(m.blocked_of(co) == so.blocked_of(co).push(tid));
            assert(sf.blocked_of(co)[so.blocked_of(co).len() as int] == tid);
            assert(!m.yields_current(co));
            assert(m.task_at(m.dispatch_target(co)).state != TaskState::Blocked) by {
                if queue_has_task(m.ready_of(co)) {
                    lemma_top_prio(m.ready_of(co));
                    assert(m.wf_ready_entry(co, top_prio(m.ready_of(co)), 0));
                } else {
                    assert(m.wf_sched(co));
                }
            }
            assert(sf.task_at(ti).state == TaskState::Blocked);
            assert forall|p: int, i: int|
                0 <= p < self.waiters().len() && 0 <= i < self.waiters()[p].len()
                implies #[trigger] self.wf_waiter(sf, p, i) by {
                if p == pr && i == self.waiters()[p].len() - 1 {
                    assert(self.waiters()[p][i] == tid);
                } else {
                    assert(o.wf_waiter(so, p, i));
                    let w = o.waiters()[p][i] as int;
                    assert(self.waiters()[p][i] == o.waiters()[p][i]);
                    assert(w != ti);
                    assert(m.task_at(w).state == TaskState::Blocked);
                    assert(w != m.dispatch_target(co));
                    assert(sf.task_at(w).state == TaskState::Blocked);
                }
            }
            assert forall|p: int, i: int, j: int|
                0 <= p < self.waiters().len() && 0 <= i < self.waiters()[p].len() && 0 <= j
                    < self.waiters()[p].len() && self.waiters()[p][i] == self.waiters()[p][j]
                implies i == j by {
                if p == pr {
                    let last = self.waiters()[p].len() - 1;
                    if i != j && (i == last || j == last) {
                        let other = if i == last {
                            j
                        } else {
                            i
                        };
                        assert(o.wf_waiter(so, p, other));
                        assert(o.waiters()[p][other] != tid);
                        assert(false);
                    }
                } else {
                    assert(self.waiters()[p] == o.waiters()[p]);
                }
            }
            assert(self.waiters_nodup());
        }
        false
    }

    /// One release by the owner.  Decrements the count; when it reaches
    /// zero the mutex is freed and the longest-waiting task of the highest
    /// waiting priority — the front of the wait queue — is woken on its own
    /// home core, looked up through the scheduler registry.  Releasing
    /// without holding, or more times than acquired, is the caller's
    /// contract violation and is excluded here rather than checked at run
    /// time.
    pub fn release(&mut self, sys: &mut System)
        requires
            old(self).wf_for(*old(sys)),
            old(sys).wf(),
            old(self).count() > 0,
        ensures
            final(self).wf_for(*final(sys)),
            final(sys).wf(),
            final(self).count() == old(self).count() - 1,
            old(self).count() > 1 ==> final(self).owner() == old(self).owner() && final(self).waiters() == old(self).waiters() && *final(sys) == *old(sys),
            old(self).count() == 1 ==> final(self).owner() is None,
            old(self).count() == 1 && !queue_has_task(old(self).waiters()) ==> final(self).waiters() == old(self).waiters() && *final(sys) == *old(sys),
            old(self).count() == 1 && queue_has_task(old(self).waiters()) ==> final(self).waiters() == after_pop(old(self).waiters()),
            old(self).count() == 1 && queue_has_task(old(self).waiters()) ==> final(sys).tasks@[
                front_task(old(self).waiters()) as int
            ] == (Task {
                state: TaskState::Ready,
                wakeup_time: None,
                ..old(sys).tasks@[front_task(old(self).waiters()) as int]
            }),
            old(self).count() == 1 && queue_has_task(old(self).waiters()) ==> final(sys).ready_of(
                old(sys).home_of(front_task(old(self).waiters()) as int),
            )[old(sys).task_at(front_task(old(self).waiters()) as int).prio as int] == old(sys).ready_of(old(sys).home_of(front_task(old(self).waiters()) as int))[old(sys).task_at(
                front_task(old(self).waiters()) as int,
            ).prio as int].push(front_task(old(self).waiters())),
            old(self).count() == 1 && queue_has_task(old(self).waiters()) ==> !final(sys).in_blocked(
                old(sys).home_of(front_task(old(self).waiters()) as int),
                front_task(old(self).waiters()) as int,
            ),
            old(self).count() == 1 && queue_has_task(old(self).waiters()) ==> forall|t: int|
                0 <= t < old(sys).tasks@.len() && t != front_task(old(self).waiters()) ==> final(sys).tasks@[t] == old(sys).tasks@[t],
            old(self).count() == 1 && queue_has_task(old(self).waiters()) ==> final(sys).tasks@.len() == old(sys).tasks@.len() && final(sys).schedulers@.len() == old(sys).schedulers@.len() && same_scheds_except(
                *old(sys),
                *final(sys),
                old(sys).home_of(front_task(old(self).waiters()) as int),
            ),
    {
        self.state.lock();
        self.state.data.count = self.state.data.count - 1;
        if self.state.data.count == 0 {
            // Release the mutex entirely and wake the next waiter, if any.
            self.state.data.current_tid = None;
            let popped = self.state.data.queue.pop();
            match popped {
                Some(task_id) => {
                    proof {
                        lemma_top_prio(old(self).waiters());
                        assert(old(self).wf_waiter(
                            *old(sys),
                            top_prio(old(self).waiters()),
                            0,
                        ));
                    }
                    sys.custom_wakeup(task_id);
                },
                None => {
                },
            }
        }
        self.state.unlock();
        proof {
            let o = *old(self);
            let so = *old(sys);
            let sf = *sys;
            if o.count() == 1 && queue_has_task(o.waiters()) {
                lemma_top_prio(o.waiters());
                let top = top_prio(o.waiters());
                let w = front_task(o.waiters()) as int;
                assert(o.wf_waiter(so, top, 0));
                assert forall|p: int, i: int|
                    0 <= p < self.waiters().len() && 0 <= i < self.waiters()[p].len()
                    implies #[trigger] self.wf_waiter(sf, p, i) by {
                    if p == top {
                        assert(self.waiters()[p][i] == o.waiters()[p][i + 1]);
                        assert(o.wf_waiter(so, p, i + 1));
                        assert(o.waiters_nodup());
                        assert(o.waiters()[p][i + 1] != front_task(o.waiters()));
                        assert(sf.tasks@[self.waiters()[p][i] as int] == so.tasks@[self.waiters()[p][i] as int]);
                    } else {
                        assert(self.waiters()[p] == o.waiters()[p]);
                        assert(o.wf_waiter(so, p, i));
                        assert(o.waiters()[p][i] != front_task(o.waiters())) by {
                            assert(o.wf_waiter(so, top, 0));
                        }
                        assert(sf.tasks@[o.waiters()[p][i] as int] == so.tasks@[o.waiters()[p][i] as int]);
                    }
                }
                assert forall|p: int, i: int, j: int|
                    0 <= p < self.waiters().len() && 0 <= i < self.waiters()[p].len() && 0 <= j
                        < self.waiters()[p].len() && self.waiters()[p][i] == self.waiters()[p][j]
                    implies i == j by {
                    assert(o.waiters_nodup());
                    if p == top {
                        assert(self.waiters()[p][i] == o.waiters()[p][i + 1]);
                        assert(self.waiters()[p][j] == o.waiters()[p][j + 1]);
                    } else {
                        assert(self.waiters()[p] == o.waiters()[p]);
                    }
                }
                assert(self.waiters_nodup());
            } else {
                assert(self.waiters() == o.waiters());
                assert(o.waiters_nodup());
                assert(self.waiters_nodup());
                assert forall|p: int, i: int|
                    0 <= p < self.waiters().len() && 0 <= i < self.waiters()[p].len()
                    implies #[trigger] self.wf_waiter(sf, p, i) by {
                    assert(o.wf_waiter(so, p, i));
                }
            }
        }
    }
}

/// Mutual exclusion: ownership of a recursive mutex is held by at most one
/// task at any instant — any two owners are the same task.
pub proof fn lemma_mutual_exclusion(m: RecursiveMutex, t1: TaskId, t2: TaskId)
    requires
        m.owner() == Some(t1),
        m.owner() == Some(t2),
    ensures
        t1 == t2,
{
}

} // verus!
