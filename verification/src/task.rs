//! Task records and the two task containers: the priority-ordered ready queue
//! and the per-core blocked queue.

use vstd::prelude::*;

verus! {

/// Number of distinct priority levels.
pub const NO_PRIORITIES: usize = 32;

/// Priority of each core's idle task, the lowest level.
pub const IDLE_PRIO: usize = 0;

/// Default priority for spawned tasks.
pub const NORMAL_PRIO: usize = 16;

/// Highest priority level.
pub const HIGH_PRIO: usize = 31;

/// Identifier of a task: its index in the system's task arena.
pub type TaskId = usize;

/// Identifier of a core: its index in the scheduler registry.
pub type CoreId = usize;

/// Lifecycle state of a task.
#[derive(Clone, Copy, Debug, PartialEq, Eq, Structural)]
pub enum TaskState {
    /// Waiting in a ready queue for dispatch.
    Ready,
    /// The current task of its home core.
    Running,
    /// Suspended in a blocked queue, awaiting a wakeup.
    Blocked,
    /// Terminated; the identifier is retired and never reused.
    Finished,
}

/// One task record of the arena.  Container membership is recorded by moving
/// the task's index between containers, never by aliasing the record itself.
#[derive(Clone, Copy, Debug)]
pub struct Task {
    /// Equals the record's index in the arena.
    pub id: TaskId,
    /// Priority level, below [`NO_PRIORITIES`].
    pub prio: usize,
    /// Home core: the only core that ever runs the owning task.
    pub core_id: CoreId,
    /// Current lifecycle state.
    pub state: TaskState,
    /// Deadline for a timer-driven wakeup, if one was requested on blocking.
    pub wakeup_time: Option<u64>,
}

/// A ready list: one FIFO list per priority level.  `pop` serves the highest
/// non-empty level first and the front of that level's list first, so tasks
/// of equal priority leave in push order.
pub struct PriorityTaskQueue {
    /// `levels[p]` holds the tasks waiting at priority `p`, front first.
    pub levels: Vec<Vec<TaskId>>,
}

impl View for PriorityTaskQueue {
    type V = Seq<Seq<TaskId>>;

    open spec fn view(&self) -> Seq<Seq<TaskId>> {
        self.levels@.map_values(|l: Vec<TaskId>| l@)
    }
}

/// Some level of the queue is non-empty.
pub open spec fn queue_has_task(v: Seq<Seq<TaskId>>) -> bool {
    exists|p: int| 0 <= p < v.len() && v[p].len() > 0
}

/// The highest non-empty priority level, or `-1` if every level is empty.
pub open spec fn top_prio(v: Seq<Seq<TaskId>>) -> int
    decreases v.len(),
{
    if v.len() == 0 {
        -1
    } else if v[v.len() - 1].len() > 0 {
        v.len() - 1
    } else {
        top_prio(v.drop_last())
    }
}

/// The task `pop` returns: the front of the highest non-empty level.
pub open spec fn front_task(v: Seq<Seq<TaskId>>) -> TaskId {
    v[top_prio(v)][0]
}

/// The queue contents after one `pop`.
pub open spec fn after_pop(v: Seq<Seq<TaskId>>) -> Seq<Seq<TaskId>> {
    v.update(top_prio(v), v[top_prio(v)].drop_first())
}

/// When level `p` is non-empty and every level above it is empty, `p` is the
/// level `pop` serves.
pub proof fn lemma_top_prio_witness(v: Seq<Seq<TaskId>>, p: int)
    requires
        0 <= p < v.len(),
        v[p].len() > 0,
        forall|q: int| p < q < v.len() ==> v[q].len() == 0,
    ensures
        top_prio(v) == p,
    decreases v.len(),
{
    if p < v.len() - 1 {
        lemma_top_prio_witness(v.drop_last(), p);
    }
}

/// In a queue that holds some task, `top_prio` names a non-empty level and
/// every level above it is empty.
pub proof fn lemma_top_prio(v: Seq<Seq<TaskId>>)
    requires
        queue_has_task(v),
    ensures
        0 <= top_prio(v) < v.len(),
        v[top_prio(v)].len() > 0,
        forall|q: int| top_prio(v) < q < v.len() ==> v[q].len() == 0,
    decreases v.len(),
{
    if v[v.len() - 1].len() > 0 {
    } else {
        let w = choose|p: int| 0 <= p < v.len() && v[p].len() > 0;
        assert(0 <= w < v.len() - 1 && v.drop_last()[w].len() > 0);
        lemma_top_prio(v.drop_last());
        assert forall|q: int| top_prio(v) < q < v.len() implies v[q].len() == 0 by {
            if q < v.len() - 1 {
                assert(v.drop_last()[q].len() == 0);
            }
        }
    }
}

/// FIFO fairness of a priority queue: three tasks waiting at one level, in
/// arrival order `a`, `b`, `c`, with no task waiting at any other level, are
/// served in exactly that order by three successive pops — so three releases
/// of a contended mutex wake its equal-priority waiters in arrival order.
pub proof fn lemma_fifo_order(v: Seq<Seq<TaskId>>, p: int, a: TaskId, b: TaskId, c: TaskId)
    requires
        v.len() == NO_PRIORITIES,
        0 <= p < v.len(),
        v[p] == seq![a, b, c],
        forall|q: int| 0 <= q < v.len() && q != p ==> v[q].len() == 0,
    ensures
        front_task(v) == a,
        front_task(after_pop(v)) == b,
        front_task(after_pop(after_pop(v))) == c,
{
    lemma_top_prio_witness(v, p);
    let v1 = after_pop(v);
    assert(v1[p] =~= seq![b, c]);
    assert forall|q: int| 0 <= q < v1.len() && q != p implies v1[q].len() == 0 by {}
    lemma_top_prio_witness(v1, p);
    let v2 = after_pop(v1);
    assert(v2[p] =~= seq![c]);
    assert forall|q: int| 0 <= q < v2.len() && q != p implies v2[q].len() == 0 by {}
    lemma_top_prio_witness(v2, p);
}

impl PriorityTaskQueue {
    /// The queue has one list per priority level.
    pub open spec fn wf(&self) -> bool {
        self@.len() == NO_PRIORITIES
    }

    /// Creates an empty ready list.
    pub fn new() -> (q: Self)
        ensures
            q.wf(),
            forall|p: int| 0 <= p < NO_PRIORITIES ==> q@[p].len() == 0,
    {
        let mut levels: Vec<Vec<TaskId>> = Vec::new();
        while levels.len() < NO_PRIORITIES
            invariant
                levels@.len() <= NO_PRIORITIES,
                forall|p: int| 0 <= p < levels@.len() ==> levels@[p]@.len() == 0,
            decreases NO_PRIORITIES - levels.len(),
        {
            levels.push(Vec::new());
        }
        PriorityTaskQueue { levels }
    }

    /// Appends `id` to the tail of the list for `prio`.
    pub fn push(&mut self, id: TaskId, prio: usize)
        requires
            old(self).wf(),
            prio < NO_PRIORITIES,
        ensures
            final(self).wf(),
            final(self)@[prio as int] == old(self)@[prio as int].push(id),
            forall|p: int|
                0 <= p < NO_PRIORITIES && p != prio ==> final(self)@[p] == old(self)@[p],
    {
        let level = &mut self.levels[prio];
        level.push(id);
    }

    /// Removes and returns the front of the highest non-empty level, or
    /// `None` if every level is empty.
    pub fn pop(&mut self) -> (r: Option<TaskId>)
        requires
            old(self).wf(),
        ensures
            final(self).wf(),
            r is Some <==> queue_has_task(old(self)@),
            r is Some ==> r == Some(front_task(old(self)@)) && final(self)@ == after_pop(
                old(self)@,
            ),
            r is None ==> final(self)@ == old(self)@,
    {
        let mut p: usize = NO_PRIORITIES;
        while p > 0
            invariant
                p <= NO_PRIORITIES,
                self.wf(),
                *self == *old(self),
                forall|q: int| p <= q < NO_PRIORITIES ==> self@[q].len() == 0,
            decreases p,
        {
            let idx = p - 1;
            if self.levels[idx].len() > 0 {
                proof {
                    lemma_top_prio_witness(self@, idx as int);
                }
                let level = &mut self.levels[idx];
                let id = level.remove(0);
                proof {
                    let j = idx as int;
                    assert(old(self)@[j].drop_first() =~= old(self)@[j].remove(0));
                    assert(self@ =~~= after_pop(old(self)@));
                }
                return Some(id);
            }
            p = idx;
        }
        None
    }
}

/// A per-core holding area for suspended tasks.  Order of entries is not
/// observable; membership is.
pub struct BlockedTaskQueue {
    /// The identifiers of the blocked tasks, in insertion order.
    pub tasks: Vec<TaskId>,
}

impl View for BlockedTaskQueue {
    type V = Seq<TaskId>;

    open spec fn view(&self) -> Seq<TaskId> {
        self.tasks@
    }
}

impl BlockedTaskQueue {
    /// Creates an empty blocked queue.
    pub fn new() -> (q: Self)
        ensures
            q@.len() == 0,
    {
        BlockedTaskQueue { tasks: Vec::new() }
    }

    /// Records `id` as blocked on this core.  The scheduler performs the
    /// state transition; this is the container side of the operation.
    pub(crate) fn add(&mut self, id: TaskId)
        ensures
            final(self)@ == old(self)@.push(id),
    {
        self.tasks.push(id);
    }

    /// Removes one occurrence of `id`.  Absence is a caller contract
    /// violation, so presence is required here.
    pub(crate) fn remove(&mut self, id: TaskId)
        requires
            exists|i: int| 0 <= i < old(self)@.len() && old(self)@[i] == id,
        ensures
            exists|i: int|
                0 <= i < old(self)@.len() && old(self)@[i] == id && final(self)@ == old(
                    self,
                )@.remove(i),
    {
        let mut i: usize = 0;
        while i < self.tasks.len()
            invariant
                i <= self.tasks@.len(),
                *self == *old(self),
                forall|j: int| 0 <= j < i ==> self@[j] != id,
                exists|j: int| 0 <= j < self@.len() && self@[j] == id,
            decreases self.tasks@.len() - i,
        {
            if self.tasks[i] == id {
                self.tasks.remove(i);
                return ;
            }
            i = i + 1;
        }
        proof {
            assert(false);
        }
    }
}

} // verus!
