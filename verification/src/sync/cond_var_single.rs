//! A condition variable with a single waiter and any number of notifiers.
use vstd::prelude::*;
use crate::tasking::thread::ThreadId;

verus! {

/// Simple version of a condition variable: single waiter, multiple notifiers.
/// There's no spurious wakeups. Thread id zero stands for "no waiter".
pub struct CondVarSingle {
    waiter: ThreadId,
}

impl CondVarSingle {
    /// The registered waiter (thread id zero when there is none).
    pub closed spec fn spec_waiter(&self) -> ThreadId {
        self.waiter
    }

    /// Creates a new `CondVarSingle`, without a waiter.
    pub fn new() -> (r: Self)
        ensures
            r.spec_waiter() == ThreadId::spec_zero(),
    {
        Self { waiter: ThreadId::zero() }
    }

    /// Notifies the waiter if there is one: takes the waiter out and returns it, to be woken up.
    pub fn notify(&mut self) -> (r: Option<ThreadId>)
        ensures
            final(self).spec_waiter() == ThreadId::spec_zero(),
            old(self).spec_waiter() == ThreadId::spec_zero() ==> r is None,
            old(self).spec_waiter() != ThreadId::spec_zero() ==> r == Some(old(self).spec_waiter()),
    {
        let tid = self.waiter;
        self.waiter = ThreadId::zero();
        if tid != ThreadId::zero() {
            Some(tid)
        } else {
            None
        }
    }

    /// Registers `tid` as the waiter when there is none yet; returns whether it was registered
    /// (otherwise the caller tries again).
    pub fn try_register(&mut self, tid: ThreadId) -> (r: bool)
        ensures
            r == (old(self).spec_waiter() == ThreadId::spec_zero()),
            r ==> final(self).spec_waiter() == tid,
            !r ==> final(self).spec_waiter() == old(self).spec_waiter(),
    {
        if self.waiter == ThreadId::zero() {
            self.waiter = tid;
            true
        } else {
            false
        }
    }
}

} // verus!
