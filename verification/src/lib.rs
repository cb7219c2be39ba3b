//! Task-scheduling and synchronization core of a cooperative, multi-core
//! unikernel, modelled over plain data so that its invariants can be verified.
//!
//! The model keeps every task record in one arena, indexed by [`task::TaskId`];
//! the containers (ready queues, blocked queues, the per-core current slot)
//! hold indices only, so exclusive ownership of a task is the statement that
//! its index sits in exactly one container.  [`scheduler::System`] ties the
//! arena to the per-core [`scheduler::Scheduler`] instances and plays the role
//! of the process-wide scheduler registry; [`recmutex::RecursiveMutex`] is the
//! ownership-counted lock built on top of that machinery.
//!
//! Hardware concerns (context-switch primitives, interrupt masking, the memory
//! allocator, boot bring-up) are external collaborators: the model records the
//! decisions the scheduler takes, not the register state it moves.

pub mod recmutex;
pub mod scheduler;
pub mod spinlock;
pub mod task;
