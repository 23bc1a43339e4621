//! Per-core scheduler: run queue bookkeeping and the choice of the next thread.
use vstd::prelude::*;
use std::collections::VecDeque;
use crate::arch::paging::{CpuPageMapping, lemma_cpu_page_mapping_view_injective};
use crate::arch::address::VirtAddr;
use crate::tasking::thread::{Thread, ThreadId, ThreadStatus};
use crate::tasking::protection_domain::{ProtectionDomain, asid_assignment};
use crate::arch::cpu_data::CpuData;

verus! {

/// Per-core scheduler.
pub struct Scheduler {
    run_queue: VecDeque<ThreadId>,
    garbage: ThreadId,
    current_thread_id: ThreadId,
    idle_thread_id: ThreadId,
}

/// `i` is the first position of `threads` that holds the thread `id`.
pub open spec fn first_index(threads: Seq<Thread>, id: ThreadId, i: int) -> bool {
    &&& 0 <= i < threads.len()
    &&& threads[i].spec_id() == id
    &&& forall|j: int| 0 <= j < i ==> #[trigger] threads[j].spec_id() != id
}

/// Some position of `threads` holds the thread `id`.
pub open spec fn holds(threads: Seq<Thread>, id: ThreadId) -> bool {
    exists|i: int| 0 <= i < threads.len() && #[trigger] threads[i].spec_id() == id
}

/// The runqueue once the running thread, in state `status`, stopped: a runnable thread other
/// than the idle thread goes to its back.
pub open spec fn queue_after(s: Scheduler, status: ThreadStatus) -> Seq<ThreadId> {
    if status == ThreadStatus::Runnable && s.spec_current() != s.spec_idle() {
        s.spec_run_queue().push(s.spec_current())
    } else {
        s.spec_run_queue()
    }
}

/// The thread that runs next once the running thread, in state `status`, stopped: the first
/// of the runqueue, or the idle thread.
pub open spec fn next_after(s: Scheduler, status: ThreadStatus) -> ThreadId {
    if queue_after(s, status).len() > 0 {
        queue_after(s, status)[0]
    } else {
        s.spec_idle()
    }
}

/// What a switch comes to.
#[derive(Debug, Clone, Copy, PartialEq, Eq, Structural)]
pub struct SwitchOutcome {
    /// The stack pointer of the next thread.
    pub stack: VirtAddr,
    /// The page mapping to switch to; the sentinel when it stays the same.
    pub mapping: CpuPageMapping,
    /// The thread that exited at an earlier switch, to deallocate first.
    pub garbage: Option<ThreadId>,
    /// The thread that exited now: its memory is to be unmapped while its address space is
    /// still the active one.
    pub exited: Option<ThreadId>,
    /// Whether the SIMD state of the thread that stops is to be saved (unless it exited).
    pub save_old_state: bool,
    /// The thread that runs next, whose SIMD state is to be restored.
    pub next: ThreadId,
    /// The address space identifier bit whose stale translations must be invalidated.
    pub invalidate: Option<u64>,
}

/// The first position holding a thread is unique, and it stays the same, as does whether any
/// position holds it, when only other fields of the threads change.
proof fn lemma_first_index(a: Seq<Thread>, b: Seq<Thread>, id: ThreadId, i: int)
    requires
        a.len() == b.len(),
        forall|k: int| 0 <= k < a.len() ==> #[trigger] a[k].spec_id() == b[k].spec_id(),
        first_index(a, id, i),
    ensures
        first_index(b, id, i),
        forall|j: int| #[trigger] first_index(a, id, j) ==> j == i,
        forall|j: int| #[trigger] first_index(b, id, j) ==> j == i,
        holds(a, id),
        holds(b, id),
{
    assert(a[i].spec_id() == id);
    assert(b[i].spec_id() == id);
    assert forall|j: int| 0 <= j < i implies #[trigger] b[j].spec_id() != id by {
        assert(a[j].spec_id() == b[j].spec_id());
    }
    assert forall|j: int| #[trigger] first_index(b, id, j) implies j == i by {
        if j < i {
            assert(b[j].spec_id() != id);
        } else if j > i {
            assert(b[i].spec_id() != id);
        }
    }
    assert forall|j: int| #[trigger] first_index(a, id, j) implies j == i by {
        if j < i {
            assert(a[j].spec_id() != id);
        } else if j > i {
            assert(a[i].spec_id() != id);
        }
    }
}

/// Whether a position holds a thread does not depend on other fields of the threads.
proof fn lemma_holds(a: Seq<Thread>, b: Seq<Thread>, id: ThreadId)
    requires
        a.len() == b.len(),
        forall|k: int| 0 <= k < a.len() ==> #[trigger] a[k].spec_id() == b[k].spec_id(),
    ensures
        holds(a, id) == holds(b, id),
{
    if holds(a, id) {
        let k = choose|k: int| 0 <= k < a.len() && #[trigger] a[k].spec_id() == id;
        assert(b[k].spec_id() == id);
    }
    if holds(b, id) {
        let k = choose|k: int| 0 <= k < b.len() && #[trigger] b[k].spec_id() == id;
        assert(a[k].spec_id() == id);
    }
}

/// Finds the first position of `threads` that holds the thread `id`.
fn find_thread(threads: &Vec<Thread>, id: ThreadId) -> (r: Option<usize>)
    ensures
        r matches Some(i) ==> first_index(threads@, id, i as int),
        r is None <==> !holds(threads@, id),
{
    let mut i: usize = 0;
    while i < threads.len()
        invariant
            0 <= i <= threads@.len(),
            forall|j: int| 0 <= j < i ==> #[trigger] threads@[j].spec_id() != id,
        decreases threads@.len() - i,
    {
        if threads[i].id() == id {
            return Some(i);
        }
        i = i + 1;
    }
    None
}

impl Scheduler {
    /// The threads waiting to run, in order.
    pub closed spec fn spec_run_queue(&self) -> Seq<ThreadId> {
        self.run_queue@
    }

    /// The thread that exited and still has to be deallocated (`ThreadId::zero()` if none).
    pub closed spec fn spec_garbage(&self) -> ThreadId {
        self.garbage
    }

    /// The thread that runs now.
    pub closed spec fn spec_current(&self) -> ThreadId {
        self.current_thread_id
    }

    /// The idle thread, which runs when nothing else can.
    pub closed spec fn spec_idle(&self) -> ThreadId {
        self.idle_thread_id
    }

    /// New scheduler, running its idle thread.
    pub fn new(idle_thread_id: ThreadId) -> (r: Self)
        ensures
            r.spec_run_queue() == Seq::<ThreadId>::empty(),
            r.spec_garbage() == ThreadId::zero(),
            r.spec_current() == idle_thread_id,
            r.spec_idle() == idle_thread_id,
    {
        Self {
            run_queue: VecDeque::new(),
            garbage: ThreadId::zero(),
            current_thread_id: idle_thread_id,
            idle_thread_id,
        }
    }

    /// Adds a thread to the runqueue.
    pub fn queue_thread(&mut self, thread: ThreadId)
        ensures
            final(self).spec_run_queue() == old(self).spec_run_queue().push(thread),
            final(self).spec_garbage() == old(self).spec_garbage(),
            final(self).spec_current() == old(self).spec_current(),
            final(self).spec_idle() == old(self).spec_idle(),
    {
        self.run_queue.push_back(thread);
    }

    /// Gets the next thread to run.
    #[inline]
    fn next_thread(&mut self) -> (r: ThreadId)
        ensures
            old(self).spec_run_queue().len() > 0 ==> r == old(self).spec_run_queue()[0]
                && final(self).spec_run_queue() == old(self).spec_run_queue().drop_first(),
            old(self).spec_run_queue().len() == 0 ==> r == old(self).spec_idle()
                && final(self).spec_run_queue() == old(self).spec_run_queue(),
            final(self).spec_garbage() == old(self).spec_garbage(),
            final(self).spec_current() == old(self).spec_current(),
            final(self).spec_idle() == old(self).spec_idle(),
    {
        if let Some(thread) = self.run_queue.pop_front() {
            thread
        } else {
            self.idle_thread_id
        }
    }

    /// Gets the current thread id.
    #[inline]
    pub fn current_thread_id(&self) -> (r: ThreadId)
        ensures
            r == self.spec_current(),
    {
        self.current_thread_id
    }

    /// Gets the id of the idle thread.
    #[inline]
    pub fn idle_thread_id(&self) -> (r: ThreadId)
        ensures
            r == self.spec_idle(),
    {
        self.idle_thread_id
    }

    /// Gets the thread that runs now.
    #[inline]
    pub fn current_thread(&self) -> (r: ThreadId)
        ensures
            r == self.spec_current(),
    {
        self.current_thread_id
    }

    /// Puts a thread that was woken up in front of the runqueue.
    pub fn move_wakeup(&mut self, thread_id: ThreadId)
        ensures
            final(self).spec_run_queue() == seq![thread_id] + old(self).spec_run_queue(),
            final(self).spec_garbage() == old(self).spec_garbage(),
            final(self).spec_current() == old(self).spec_current(),
            final(self).spec_idle() == old(self).spec_idle(),
    {
        self.run_queue.push_front(thread_id);
    }

    /// Takes the exited thread that still has to be deallocated, if any.
    pub fn take_garbage(&mut self) -> (r: Option<ThreadId>)
        ensures
            old(self).spec_garbage() != ThreadId::zero() ==> r == Some(old(self).spec_garbage()),
            old(self).spec_garbage() == ThreadId::zero() ==> r is None,
            final(self).spec_garbage() == ThreadId::zero(),
            final(self).spec_run_queue() == old(self).spec_run_queue(),
            final(self).spec_current() == old(self).spec_current(),
            final(self).spec_idle() == old(self).spec_idle(),
    {
        // Relaxed ordering is fine because this is only for this core.
        let garbage = self.garbage;
        if garbage != ThreadId::zero() {
            self.garbage = ThreadId::zero();
            Some(garbage)
        } else {
            None
        }
    }

    /// Switches from the running thread, whose state is `old_thread_status`, to the next one.
    /// A runnable thread other than the idle thread goes to the back of the runqueue; an
    /// exited one becomes the garbage to deallocate at the next switch. The next thread is the
    /// first of the runqueue, or the idle thread. Returns the next thread, and the exited
    /// thread whose memory must be unmapped now, if any.
    pub fn pick_next(&mut self, old_thread_status: ThreadStatus) -> (r: (
        ThreadId,
        Option<ThreadId>,
    ))
        requires
            old_thread_status is Exit ==> old(self).spec_garbage() == ThreadId::zero(),
        ensures
            ({
                let old_id = old(self).spec_current();
                let queue = if old_thread_status == ThreadStatus::Runnable && old_id != old(self).spec_idle() {
                    old(self).spec_run_queue().push(old_id)
                } else {
                    old(self).spec_run_queue()
                };
                &&& queue.len() > 0 ==> r.0 == queue[0] && final(self).spec_run_queue()
                    == queue.drop_first()
                &&& queue.len() == 0 ==> r.0 == old(self).spec_idle() && final(self).spec_run_queue() == queue
                &&& final(self).spec_current() == r.0
                &&& final(self).spec_idle() == old(self).spec_idle()
                &&& old_thread_status is Exit ==> r.1 == Some(old_id) && final(self).spec_garbage()
                    == old_id
                &&& !(old_thread_status is Exit) ==> r.1 is None && final(self).spec_garbage()
                    == old(self).spec_garbage()
            }),
    {
        let old_thread_id = self.current_thread_id;

        let exited = match old_thread_status {
            ThreadStatus::Runnable => {
                if old_thread_id != self.idle_thread_id {
                    self.run_queue.push_back(old_thread_id);
                }
                None
            },
            ThreadStatus::Blocked => None,
            ThreadStatus::Exit(_) => {
                self.garbage = old_thread_id;
                Some(old_thread_id)
            },
        };

        let next_thread_id = self.next_thread();
        self.current_thread_id = next_thread_id;
        (next_thread_id, exited)
    }

    /// Switches away from `old_thread`, the running thread, whose stack pointer is `old_stack`:
    /// the stack pointer is saved unless the thread exited, and the next thread is chosen as
    /// `pick_next` does with the thread's state. Returns the next thread, and the
    /// exited thread whose memory must be unmapped now, if any.
    pub fn switch_from(&mut self, old_thread: &mut Thread, old_stack: VirtAddr) -> (r: (ThreadId, Option<ThreadId>))
        requires
            old_thread.spec_id() == old(self).spec_current(),
            old(old_thread).spec_status() is Exit ==> old(self).spec_garbage() == ThreadId::zero(),
        ensures
            !(old(old_thread).spec_status() is Exit) ==> final(old_thread).spec_stack().spec_current_location() == old_stack,
            old(old_thread).spec_status() is Exit ==> final(old_thread).spec_stack() == old(old_thread).spec_stack(),
            final(old_thread).spec_stack().spec_vma() == old(old_thread).spec_stack().spec_vma(),
            final(old_thread).spec_id() == old(old_thread).spec_id(),
            final(old_thread).spec_status() == old(old_thread).spec_status(),
            final(old_thread).spec_heap() == old(old_thread).spec_heap(),
            ({
                let status = old(old_thread).spec_status();
                let old_id = old(self).spec_current();
                let queue = if status == ThreadStatus::Runnable && old_id != old(self).spec_idle() {
                    old(self).spec_run_queue().push(old_id)
                } else {
                    old(self).spec_run_queue()
                };
                &&& queue.len() > 0 ==> r.0 == queue[0] && final(self).spec_run_queue()
                    == queue.drop_first()
                &&& queue.len() == 0 ==> r.0 == old(self).spec_idle() && final(self).spec_run_queue() == queue
                &&& final(self).spec_current() == r.0
                &&& final(self).spec_idle() == old(self).spec_idle()
                &&& status is Exit ==> r.1 == Some(old_id) && final(self).spec_garbage() == old_id
                &&& !(status is Exit) ==> r.1 is None && final(self).spec_garbage() == old(self).spec_garbage()
            }),
    {
        old_thread.save_stack_on_switch(old_stack);
        let status = old_thread.status();
        self.pick_next(status)
    }

    /// Switches from the running thread to the next one, with the threads of this core in
    /// `threads` and, at the same positions, their protection domains in `domains`, and
    /// `old_stack` the stack pointer of the running thread. The exited thread of an earlier
    /// switch is taken as garbage first. The running thread's stack pointer is saved unless it
    /// exited; the next thread is chosen as `pick_next` does; it gets an address space
    /// identifier of this CPU when needed. Returns where to switch to: the next thread's stack
    /// pointer and page mapping (the sentinel when it is the running thread's), with what the
    /// caller still has to do. `None` when `threads` does not hold the running thread or the
    /// next one.
    pub fn next_thread_state(
        &mut self,
        threads: &mut Vec<Thread>,
        domains: &mut Vec<ProtectionDomain>,
        cpu: &mut CpuData,
        old_stack: VirtAddr,
    ) -> (r: Option<SwitchOutcome>)
        requires
            old(threads)@.len() == old(domains)@.len(),
            forall|k: int| 0 <= k < old(domains)@.len() ==> (#[trigger] old(domains)@[k]).wf(),
            old(cpu).spec_asid_manager().wf(),
        ensures
            final(threads)@.len() == old(threads)@.len(),
            final(domains)@.len() == old(domains)@.len(),
            forall|k: int| 0 <= k < final(domains)@.len() ==> (#[trigger] final(domains)@[k]).wf(),
            final(cpu).spec_asid_manager().wf(),
            !holds(old(threads)@, old(self).spec_current()) ==> r is None && *final(self) == *old(self)
                && final(threads)@ == old(threads)@ && final(domains)@ == old(domains)@
                && *final(cpu) == *old(cpu),
            forall|i: int| first_index(old(threads)@, old(self).spec_current(), i) ==> ({
                let t = old(threads)@[i];
                let status = t.spec_status();
                let old_id = old(self).spec_current();
                let queue = queue_after(*old(self), status);
                let next = next_after(*old(self), status);
                &&& final(self).spec_current() == next
                &&& final(self).spec_idle() == old(self).spec_idle()
                &&& queue.len() > 0 ==> final(self).spec_run_queue() == queue.drop_first()
                &&& queue.len() == 0 ==> final(self).spec_run_queue() == queue
                &&& status is Exit ==> final(self).spec_garbage() == old_id
                &&& !(status is Exit) ==> final(self).spec_garbage() == ThreadId::zero()
                &&& !(status is Exit) ==> final(threads)@[i].spec_stack().spec_current_location() == old_stack
                &&& status is Exit ==> final(threads)@[i].spec_stack() == t.spec_stack()
                &&& final(threads)@[i].spec_stack().spec_vma() == t.spec_stack().spec_vma()
                &&& final(threads)@[i].spec_id() == t.spec_id()
                &&& final(threads)@[i].spec_status() == status
                &&& final(threads)@[i].spec_heap() == t.spec_heap()
                &&& forall|k: int| 0 <= k < old(threads)@.len() && k != i ==> #[trigger] final(threads)@[k] == old(threads)@[k]
                &&& r is None <==> !holds(old(threads)@, next)
                &&& r is None ==> final(domains)@ == old(domains)@ && *final(cpu) == *old(cpu)
                &&& forall|sw: SwitchOutcome, j: int| r == Some(sw) && first_index(old(threads)@, next, j) ==> {
                    let d = old(domains)@[j];
                    let d2 = final(domains)@[j];
                    &&& sw.next == next
                    &&& old(self).spec_garbage() != ThreadId::zero() ==> sw.garbage == Some(old(self).spec_garbage())
                    &&& old(self).spec_garbage() == ThreadId::zero() ==> sw.garbage is None
                    &&& status is Exit ==> sw.exited == Some(old_id)
                    &&& !(status is Exit) ==> sw.exited is None
                    &&& sw.save_old_state == !(status is Exit)
                    &&& sw.stack == final(threads)@[j].spec_stack().spec_current_location()
                    &&& forall|k: int| 0 <= k < old(domains)@.len() && k != j ==> #[trigger] final(domains)@[k] == old(domains)@[k]
                    &&& d2.spec_mapping() == d.spec_mapping()
                    &&& d2.spec_vma_allocator() == d.spec_vma_allocator()
                    &&& old(cpu).spec_asid_enable() ==> asid_assignment(
                        d.spec_asid(),
                        d2.spec_asid(),
                        old(cpu).spec_asid_manager(),
                        final(cpu).spec_asid_manager(),
                        sw.invalidate,
                    )
                    &&& !old(cpu).spec_asid_enable() ==> sw.invalidate is None && d2 == d
                        && *final(cpu) == *old(cpu)
                    &&& old(domains)@[i].spec_cpu_page_mapping() == d2.spec_cpu_page_mapping() ==> sw.mapping@ == 0
                    &&& old(domains)@[i].spec_cpu_page_mapping() != d2.spec_cpu_page_mapping() ==> sw.mapping@
                        == d2.spec_cpu_page_mapping()
                }
            }),
    {
        let ghost t0 = threads@;
        let ghost s0 = *self;
        let old_index = match find_thread(threads, self.current_thread_id) {
            Some(i) => i,
            None => return None,
        };
        proof {
            lemma_first_index(t0, t0, s0.spec_current(), old_index as int);
        }
        let garbage = self.take_garbage();
        let old_mapping = domains[old_index].cpu_page_mapping();
        let save_old_state = threads[old_index].keeps_state_on_switch();
        let (next, exited) = self.switch_from(&mut threads[old_index], old_stack);
        let ghost t1 = threads@;
        proof {
            assert forall|k: int| 0 <= k < t0.len() implies #[trigger] t0[k].spec_id() == t1[k].spec_id() by {
                if k != old_index {
                    assert(t1[k] == t0[k]);
                }
            }
            lemma_holds(t0, t1, next);
            assert(next == next_after(s0, t0[old_index as int].spec_status()));
        }
        let next_index = match find_thread(threads, next) {
            Some(j) => j,
            None => return None,
        };
        proof {
            lemma_first_index(t1, t0, next, next_index as int);
        }
        let invalidate = cpu.assign_asid(&mut domains[next_index]);
        let next_mapping = domains[next_index].cpu_page_mapping();
        proof {
            lemma_cpu_page_mapping_view_injective(old_mapping, next_mapping);
        }
        let (stack, mapping) = switch_target(&threads[next_index], old_mapping, next_mapping);
        Some(SwitchOutcome { stack, mapping, garbage, exited, save_old_state, next, invalidate })
    }
}

/// Where the switch goes: the stack pointer saved for `next_thread`, and the page mapping to
/// switch to, which is the sentinel when `next_mapping`, the mapping of the next thread, is
/// `old_mapping`, the one in use.
pub fn switch_target(next_thread: &Thread, old_mapping: CpuPageMapping, next_mapping: CpuPageMapping) -> (r: (VirtAddr, CpuPageMapping))
    ensures
        r.0 == next_thread.spec_stack().spec_current_location(),
        old_mapping == next_mapping ==> r.1@ == 0,
        old_mapping != next_mapping ==> r.1 == next_mapping,
{
    (next_thread.stack_location(), next_page_mapping(old_mapping, next_mapping))
}

/// The page mapping to switch to: none (the sentinel) when it is the one in use already.
pub fn next_page_mapping(old_mapping: CpuPageMapping, new_mapping: CpuPageMapping) -> (r:
    CpuPageMapping)
    ensures
        old_mapping == new_mapping ==> r@ == 0,
        old_mapping != new_mapping ==> r == new_mapping,
{
    if old_mapping == new_mapping {
        CpuPageMapping::sentinel()
    } else {
        new_mapping
    }
}

} // verus!
