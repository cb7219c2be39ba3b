//! Busy-wait mutual exclusion for short critical sections.
//!
//! On hardware the lock spins on an atomic flag with interrupts masked; the
//! model keeps the flag as plain data and states the locking discipline as a
//! contract: a core may take the lock only when it is free (a second `lock`
//! before `unlock` deadlocks on hardware and is therefore excluded by the
//! precondition), and may touch the protected data only while holding it.
//! Interrupt masking is a hardware concern and stays outside the model.

use vstd::prelude::*;

verus! {

/// A spinlock together with the data it protects.
pub struct Spinlock<T> {
    /// Whether the lock is currently held.
    pub held: bool,
    /// The protected data; to be read or written only while `held`.
    pub data: T,
}

impl<T> Spinlock<T> {
    /// Creates a free lock around `data`.
    pub fn new(data: T) -> (s: Self)
        ensures
            !s.held,
            s.data == data,
    {
        Spinlock { held: false, data }
    }

    /// Acquires the lock.  Taking a lock that is already held would busy-wait
    /// forever, so the precondition excludes it; the data is untouched.
    pub fn lock(&mut self)
        requires
            !old(self).held,
        ensures
            final(self).held,
            final(self).data == old(self).data,
    {
        self.held = true;
    }

    /// Releases the lock; the data is untouched.
    pub fn unlock(&mut self)
        requires
            old(self).held,
        ensures
            !final(self).held,
            final(self).data == old(self).data,
    {
        self.held = false;
    }

    /// Whether the lock is currently held.
    pub fn is_held(&self) -> (r: bool)
        ensures
            r == self.held,
    {
        self.held
    }
}

} // verus!
