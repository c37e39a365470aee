//! Synchronisation primitives: counting semaphore, recursive mutex with
//! priority inheritance, condition variable and barrier.
//!
//! Each primitive keeps its own wait queue of task ids, ordered by
//! priority. An operation that blocks the running task moves it from the
//! ready list into the wait queue and sets the kernel's `yield_pending`;
//! the caller then switches context and, where stated, resumes the
//! operation when the task runs again.

use vstd::prelude::*;
use vstd::wrapping::u32_specs::wrapping_add;
use crate::config::{PRI_INV, TASK_MAX};
use crate::kernel::global::{
    Kernel, ids_valid, insert_by_priority, insert_by_wake_point, ordered_insert, prio_before,
    wake_before, lemma_remove_first_valid, first_true, lemma_first_true_bound,
};
use crate::kernel::list::{TaskList, remove_first, first_index, lemma_first_index};
use crate::kernel::tcb::{Tcb, TaskStatus};

verus! {

/// The kernel after the running task `c` blocks on a wait queue: it is
/// marked blocked, leaves the ready list and joins `wq` by priority.
pub open spec fn blocked_on(
    pre: Kernel,
    post: Kernel,
    wq: Seq<usize>,
    wq_post: Seq<usize>,
    c: usize,
) -> bool {
    let tcbs = pre.tcbs@.update(c as int, Tcb { status: TaskStatus::Blocked, ..pre.tcbs@[c as int] });
    &&& post.tcbs@ == tcbs
    &&& post.ready_list@ == remove_first(pre.ready_list@, c)
    &&& wq_post == ordered_insert(wq, c, prio_before(tcbs[c as int].priority, tcbs))
    &&& post == (Kernel {
        tcbs: post.tcbs,
        ready_list: post.ready_list,
        yield_pending: true,
        ..pre
    })
}

/// The kernel after task `w` is made ready: marked ready and queued by
/// priority; `switch` tells whether a context switch is requested when `w`
/// is more urgent than the running task.
pub open spec fn readied(pre: Kernel, post: Kernel, w: usize, switch: bool) -> bool {
    let tcbs = pre.tcbs@.update(w as int, Tcb { status: TaskStatus::Ready, ..pre.tcbs@[w as int] });
    &&& post.tcbs@ == tcbs
    &&& post.ready_list@ == ordered_insert(
        pre.ready_list@,
        w,
        prio_before(tcbs[w as int].priority, tcbs),
    )
    &&& post.yield_pending == (pre.yield_pending || (switch && pre.current is Some
        && tcbs[w as int].priority < tcbs[pre.current->Some_0 as int].priority))
    &&& post == (Kernel {
        tcbs: post.tcbs,
        ready_list: post.ready_list,
        yield_pending: post.yield_pending,
        ..pre
    })
}

/// The kernel after task `w`, waiting on a semaphore, is handed a unit: any
/// pending wake-up time is cancelled (it leaves the sleeping list, with
/// wake-up time 0), it becomes ready and is queued by priority; `switch`
/// tells whether a context switch is requested when `w` is more urgent than
/// the running task.
pub open spec fn sema_woken(pre: Kernel, post: Kernel, w: usize, switch: bool) -> bool {
    let tcbs = pre.tcbs@.update(
        w as int,
        Tcb { wake_point: 0, status: TaskStatus::Ready, ..pre.tcbs@[w as int] },
    );
    &&& post.tcbs@ == tcbs
    &&& post.sleeping_list@ == remove_first(pre.sleeping_list@, w)
    &&& post.ready_list@ == ordered_insert(
        pre.ready_list@,
        w,
        prio_before(tcbs[w as int].priority, tcbs),
    )
    &&& post.yield_pending == (pre.yield_pending || (switch && pre.current is Some
        && tcbs[w as int].priority < tcbs[pre.current->Some_0 as int].priority))
    &&& post == (Kernel {
        tcbs: post.tcbs,
        sleeping_list: post.sleeping_list,
        ready_list: post.ready_list,
        yield_pending: post.yield_pending,
        ..pre
    })
}

impl Kernel {
    /// Blocks the running task on the wait queue `wq` (see [`blocked_on`]).
    pub fn block_current_on(&mut self, wq: &mut TaskList)
        requires
            old(self).wf(),
            old(self).current is Some,
            old(wq).wf(),
            ids_valid(old(wq)@),
        ensures
            final(self).wf(),
            final(wq).wf(),
            ids_valid(final(wq)@),
            blocked_on(*old(self), *final(self), old(wq)@, final(wq)@, old(self).current->Some_0),
    {
        let c = match self.current {
            Some(c) => c,
            None => { return; },
        };
        let cr_tid = self.tcbs[c].tid;
        self.tcbs[cr_tid].status = TaskStatus::Blocked;
        proof {
            lemma_remove_first_valid(self.ready_list@, cr_tid);
        }
        self.ready_list.remove(cr_tid);
        let priority = self.tcbs[cr_tid].priority;
        let _ = insert_by_priority(wq, &self.tcbs, cr_tid, priority);
        self.yield_pending = true;
    }

    /// Makes task `w` ready (see [`readied`]).
    pub fn make_ready(&mut self, w: usize, switch: bool)
        requires
            old(self).wf(),
            w < TASK_MAX,
        ensures
            final(self).wf(),
            readied(*old(self), *final(self), w, switch),
    {
        self.tcbs[w].status = TaskStatus::Ready;
        let priority = self.tcbs[w].priority;
        let _ = insert_by_priority(&mut self.ready_list, &self.tcbs, w, priority);
        if switch {
            match self.current {
                Some(c) => {
                    if priority < self.tcbs[c].priority {
                        self.yield_pending = true;
                    }
                },
                None => {},
            }
        }
    }
}

// ==========================================
// Semaphore
// ==========================================

/// A counting semaphore. A negative count is the number of tasks owed a unit.
pub struct Sema {
    count: i32,
    wait_queue: TaskList,
}

impl Sema {
    /// The wait queue is within capacity and names valid slots.
    pub closed spec fn wf(&self) -> bool {
        self.wait_queue.wf() && ids_valid(self.wait_queue@)
    }

    /// The current count.
    pub closed spec fn cnt(&self) -> i32 {
        self.count
    }

    /// The waiting tasks, most urgent first.
    pub closed spec fn waiters(&self) -> Seq<usize> {
        self.wait_queue@
    }

    /// What well-formedness gives a caller: at most `TASK_MAX` waiters, each
    /// naming a task slot.
    pub proof fn lemma_wf(&self)
        requires
            self.wf(),
        ensures
            ids_valid(self.waiters()),
            self.waiters().len() <= TASK_MAX,
    {
    }

    /// A semaphore with count `initial_count` and nobody waiting.
    pub fn new(initial_count: i32) -> (r: Self)
        ensures
            r.wf(),
            r.cnt() == initial_count,
            r.waiters() == Seq::<usize>::empty(),
    {
        Sema { count: initial_count, wait_queue: TaskList::new() }
    }

    /// Takes a unit: the count drops by one, and when it becomes negative the
    /// running task blocks on the semaphore.
    pub fn down(&mut self, k: &mut Kernel)
        requires
            old(self).wf(),
            old(k).wf(),
            old(self).cnt() > i32::MIN,
            old(self).cnt() <= 0 ==> old(k).current is Some,
        ensures
            final(self).wf(),
            final(k).wf(),
            final(self).cnt() == old(self).cnt() - 1,
            final(self).cnt() < 0 ==> blocked_on(
                *old(k),
                *final(k),
                old(self).waiters(),
                final(self).waiters(),
                old(k).current->Some_0,
            ),
            final(self).cnt() >= 0 ==> *final(k) == *old(k) && final(self).waiters() == old(
                self,
            ).waiters(),
    {
        self.count = self.count - 1;
        if self.count < 0 {
            k.block_current_on(&mut self.wait_queue);
        }
    }

    /// Returns a unit: the count rises by one, and when tasks were owed a
    /// unit the most urgent waiter is handed it: a wake-up time it set in
    /// [`Sema::down_timeout`] is cancelled and it becomes ready (with a
    /// context switch when it is more urgent than the running task).
    pub fn up(&mut self, k: &mut Kernel)
        requires
            old(self).wf(),
            old(k).wf(),
            old(self).cnt() < i32::MAX,
        ensures
            final(self).wf(),
            final(k).wf(),
            final(self).cnt() == old(self).cnt() + 1,
            final(self).cnt() <= 0 && old(self).waiters().len() > 0 ==> {
                &&& final(self).waiters() == old(self).waiters().drop_first()
                &&& sema_woken(*old(k), *final(k), old(self).waiters()[0], true)
            },
            !(final(self).cnt() <= 0 && old(self).waiters().len() > 0) ==> *final(k) == *old(k)
                && final(self).waiters() == old(self).waiters(),
    {
        self.up_inner(k, true);
    }

    /// [`Sema::up`] from an interrupt handler: the same, but never requests
    /// a context switch.
    pub fn up_from_isr(&mut self, k: &mut Kernel)
        requires
            old(self).wf(),
            old(k).wf(),
            old(self).cnt() < i32::MAX,
        ensures
            final(self).wf(),
            final(k).wf(),
            final(self).cnt() == old(self).cnt() + 1,
            final(self).cnt() <= 0 && old(self).waiters().len() > 0 ==> {
                &&& final(self).waiters() == old(self).waiters().drop_first()
                &&& sema_woken(*old(k), *final(k), old(self).waiters()[0], false)
            },
            !(final(self).cnt() <= 0 && old(self).waiters().len() > 0) ==> *final(k) == *old(k)
                && final(self).waiters() == old(self).waiters(),
    {
        self.up_inner(k, false);
    }

    fn up_inner(&mut self, k: &mut Kernel, switch: bool)
        requires
            old(self).wf(),
            old(k).wf(),
            old(self).cnt() < i32::MAX,
        ensures
            final(self).wf(),
            final(k).wf(),
            final(self).cnt() == old(self).cnt() + 1,
            final(self).cnt() <= 0 && old(self).waiters().len() > 0 ==> {
                &&& final(self).waiters() == old(self).waiters().drop_first()
                &&& sema_woken(*old(k), *final(k), old(self).waiters()[0], switch)
            },
            !(final(self).cnt() <= 0 && old(self).waiters().len() > 0) ==> *final(k) == *old(k)
                && final(self).waiters() == old(self).waiters(),
    {
        self.count = self.count + 1;
        if self.count <= 0 {
            let ghost wq = self.wait_queue@;
            match self.wait_queue.pop_front() {
                Some(woken_tid) => {
                    proof {
                        assert(wq[0] < TASK_MAX);
                        assert forall|i: int| 0 <= i < self.wait_queue@.len() implies #[trigger] self.wait_queue@[i] < TASK_MAX by {
                            assert(self.wait_queue@[i] == wq[i + 1]);
                        }
                    }
                    k.tcbs[woken_tid].wake_point = 0;
                    proof {
                        lemma_remove_first_valid(k.sleeping_list@, woken_tid);
                    }
                    k.sleeping_list.remove(woken_tid);
                    k.make_ready(woken_tid, switch);
                    proof {
                        assert(k.tcbs@ =~= old(k).tcbs@.update(
                            woken_tid as int,
                            Tcb {
                                wake_point: 0,
                                status: TaskStatus::Ready,
                                ..old(k).tcbs@[woken_tid as int]
                            },
                        ));
                    }
                },
                None => {},
            }
        }
    }

    /// Takes a unit only if one is available; never blocks.
    pub fn try_down(&mut self) -> (r: bool)
        requires
            old(self).wf(),
        ensures
            final(self).wf(),
            r == (old(self).cnt() > 0),
            final(self).cnt() == (if r { old(self).cnt() - 1 } else { old(self).cnt() as int }),
            final(self).waiters() == old(self).waiters(),
    {
        if self.count > 0 {
            self.count = self.count - 1;
            true
        } else {
            false
        }
    }

    /// Takes a unit, waiting at most `ticks` ticks. Gives `Some(true)` when a
    /// unit was available, `Some(false)` when none was and `ticks` is 0.
    /// Otherwise the running task takes the unit on credit, blocks on the
    /// semaphore with a wake-up time `ticks` ahead, and `None` is returned:
    /// once the task runs again, [`Sema::down_timeout_resume`] tells the outcome.
    pub fn down_timeout(&mut self, k: &mut Kernel, ticks: u32) -> (r: Option<bool>)
        requires
            old(self).wf(),
            old(k).wf(),
            old(self).cnt() <= 0 && ticks != 0 ==> old(self).cnt() > i32::MIN && old(k).current is Some,
        ensures
            final(self).wf(),
            final(k).wf(),
            old(self).cnt() > 0 ==> r == Some(true) && *final(k) == *old(k) && final(self).cnt()
                == old(self).cnt() - 1 && final(self).waiters() == old(self).waiters(),
            old(self).cnt() <= 0 && ticks == 0 ==> r == Some(false) && *final(k) == *old(k)
                && final(self).cnt() == old(self).cnt() && final(self).waiters() == old(
                self,
            ).waiters(),
            old(self).cnt() <= 0 && ticks != 0 ==> {
                let c = old(k).current->Some_0;
                let wake = wrapping_add(old(k).os_ticks, ticks);
                let blocked = old(k).tcbs@.update(
                    c as int,
                    Tcb { status: TaskStatus::Blocked, ..old(k).tcbs@[c as int] },
                );
                let tcbs = blocked.update(
                    c as int,
                    Tcb { wake_point: wake, sleep_start: old(k).os_ticks, ..blocked[c as int] },
                );
                &&& r is None
                &&& final(self).cnt() == old(self).cnt() - 1
                &&& final(self).waiters() == ordered_insert(
                    old(self).waiters(),
                    c,
                    prio_before(blocked[c as int].priority, blocked),
                )
                &&& final(k).tcbs@ == tcbs
                &&& final(k).ready_list@ == remove_first(old(k).ready_list@, c)
                &&& final(k).sleeping_list@ == ordered_insert(
                    old(k).sleeping_list@,
                    c,
                    wake_before(wake, tcbs),
                )
                &&& *final(k) == (Kernel {
                    tcbs: final(k).tcbs,
                    ready_list: final(k).ready_list,
                    sleeping_list: final(k).sleeping_list,
                    yield_pending: true,
                    ..*old(k)
                })
            },
    {
        if self.try_down() {
            return Some(true);
        }
        if ticks == 0 {
            return Some(false);
        }
        self.count = self.count - 1;
        k.block_current_on(&mut self.wait_queue);
        let c = match k.current {
            Some(c) => c,
            None => { return None; },
        };
        let cr_tid = k.tcbs[c].tid;
        let wake_time = k.os_ticks.wrapping_add(ticks);
        k.tcbs[cr_tid].wake_point = wake_time;
        k.tcbs[cr_tid].sleep_start = k.os_ticks;
        let _ = insert_by_wake_point(&mut k.sleeping_list, &k.tcbs, cr_tid, wake_time);
        None
    }

    /// Outcome of a [`Sema::down_timeout`] that blocked, once the task runs
    /// again: when it is still in the wait queue the wait timed out, so it
    /// leaves the queue, the unit taken on credit is returned and the result
    /// is `false`; otherwise an `up` handed it the unit and the result is `true`.
    pub fn down_timeout_resume(&mut self, k: &Kernel) -> (r: bool)
        requires
            old(self).wf(),
            k.wf(),
            k.current is Some,
            old(self).waiters().contains(k.current->Some_0) ==> old(self).cnt() < i32::MAX,
        ensures
            final(self).wf(),
            r == !old(self).waiters().contains(k.current->Some_0),
            !r ==> final(self).waiters() == remove_first(old(self).waiters(), k.current->Some_0)
                && final(self).cnt() == old(self).cnt() + 1,
            r ==> final(self).waiters() == old(self).waiters() && final(self).cnt() == old(
                self,
            ).cnt(),
    {
        let c = match k.current {
            Some(c) => c,
            None => { return true; },
        };
        let cr_tid = k.tcbs[c].tid;
        let still_waiting = self.wait_queue.contains(cr_tid);
        if still_waiting {
            proof {
                lemma_remove_first_valid(self.wait_queue@, cr_tid);
            }
            self.wait_queue.remove(cr_tid);
            self.count = self.count + 1;
            false
        } else {
            true
        }
    }

    /// The current count.
    pub fn count(&self) -> (r: i32)
        ensures
            r == self.cnt(),
    {
        self.count
    }
}

// ==========================================
// Mutex with priority inheritance
// ==========================================

/// Priorities after a task of priority `p` contends for a mutex held by
/// `o`: when `p` is more urgent, `o` inherits it, saving its own priority
/// unless one is saved already.
pub open spec fn inherit(tcbs: Seq<Tcb>, o: usize, p: u8) -> Seq<Tcb> {
    let t = tcbs[o as int];
    if p < t.priority {
        tcbs.update(
            o as int,
            Tcb {
                priority: p,
                sub_priority: if t.sub_priority == PRI_INV { t.priority } else { t.sub_priority },
                ..t
            },
        )
    } else {
        tcbs
    }
}

/// Priorities after task `c` releases a mutex: a saved priority is restored.
pub open spec fn restore(tcbs: Seq<Tcb>, c: usize) -> Seq<Tcb> {
    let t = tcbs[c as int];
    if t.sub_priority != PRI_INV {
        tcbs.update(c as int, Tcb { priority: t.sub_priority, sub_priority: PRI_INV, ..t })
    } else {
        tcbs
    }
}

/// The mutex and kernel views after the running task `c` releases one
/// level of its hold, from control blocks `tcbs` and ready list `ready`:
/// a deeper hold just loses a level; the last level restores `c`'s saved
/// priority and hands the mutex to the most urgent waiter, which becomes
/// ready and is queued by priority.
pub open spec fn unlock_effect<T>(
    m0: Mutex<T>,
    m1: Mutex<T>,
    tcbs: Seq<Tcb>,
    ready: Seq<usize>,
    c: usize,
    k1: Kernel,
) -> bool {
    &&& m1.value() == m0.value()
    &&& release_effect(m0, m1, tcbs, ready, c, k1)
}

/// Owner, depth, waiters, control blocks and ready list after the running
/// task `c` releases one level of its hold (see [`unlock_effect`]), whatever
/// becomes of the guarded value.
pub open spec fn release_effect<T>(
    m0: Mutex<T>,
    m1: Mutex<T>,
    tcbs: Seq<Tcb>,
    ready: Seq<usize>,
    c: usize,
    k1: Kernel,
) -> bool {
    if m0.depth() > 1 {
        &&& m1.depth() == m0.depth() - 1
        &&& m1.holder() == m0.holder()
        &&& m1.waiters() == m0.waiters()
        &&& k1.tcbs@ == tcbs
        &&& k1.ready_list@ == ready
    } else {
        let t1 = restore(tcbs, c);
        if m0.waiters().len() > 0 {
            let w = m0.waiters()[0];
            let t2 = t1.update(w as int, Tcb { status: TaskStatus::Ready, ..t1[w as int] });
            &&& m1.holder() == Some(w)
            &&& m1.depth() == 1
            &&& m1.waiters() == m0.waiters().drop_first()
            &&& k1.tcbs@ == t2
            &&& k1.ready_list@ == ordered_insert(ready, w, prio_before(t2[w as int].priority, t2))
        } else {
            &&& m1.holder() is None
            &&& m1.depth() == 0
            &&& m1.waiters() == m0.waiters()
            &&& k1.tcbs@ == t1
            &&& k1.ready_list@ == ready
        }
    }
}

/// Whether releasing the last level of the hold requests a context switch:
/// the new owner, or else the front of the ready list, is more urgent than `c`.
pub open spec fn unlock_switch<T>(m0: Mutex<T>, tcbs: Seq<Tcb>, ready: Seq<usize>, c: usize) -> bool {
    if m0.depth() > 1 {
        false
    } else {
        let t1 = restore(tcbs, c);
        if m0.waiters().len() > 0 {
            let w = m0.waiters()[0];
            t1[w as int].priority < t1[c as int].priority
        } else {
            ready.len() > 0 && t1[ready[0] as int].priority < t1[c as int].priority
        }
    }
}

/// A recursive mutex guarding a `T`, with priority inheritance.
pub struct Mutex<T> {
    owner: Option<usize>,
    recursive_count: u32,
    wait_queue: TaskList,
    data: T,
}

impl<T> Mutex<T> {
    /// The owner names a valid slot; the wait queue is within capacity and
    /// names valid slots.
    pub closed spec fn wf(&self) -> bool {
        &&& self.wait_queue.wf()
        &&& ids_valid(self.wait_queue@)
        &&& (self.owner matches Some(o) ==> o < TASK_MAX)
    }

    /// The owning task, if any.
    pub closed spec fn holder(&self) -> Option<usize> {
        self.owner
    }

    /// What well-formedness gives a caller: the owner names a task slot, and
    /// there are at most `TASK_MAX` waiters, each naming a task slot.
    pub proof fn lemma_wf(&self)
        requires
            self.wf(),
        ensures
            self.holder() matches Some(o) ==> o < TASK_MAX,
            ids_valid(self.waiters()),
            self.waiters().len() <= TASK_MAX,
    {
    }

    /// How many times the owner holds the mutex.
    pub closed spec fn depth(&self) -> u32 {
        self.recursive_count
    }

    /// The waiting tasks, most urgent first.
    pub closed spec fn waiters(&self) -> Seq<usize> {
        self.wait_queue@
    }

    /// The guarded value.
    pub closed spec fn value(&self) -> T {
        self.data
    }

    /// An unlocked mutex guarding `data`.
    pub fn new(data: T) -> (r: Self)
        ensures
            r.wf(),
            r.holder() is None,
            r.depth() == 0,
            r.waiters() == Seq::<usize>::empty(),
            r.value() == data,
    {
        Mutex { owner: None, recursive_count: 0, wait_queue: TaskList::new(), data }
    }

    /// Acquires the mutex for the running task `c`. A free mutex is taken
    /// with depth 1, and the owner takes it once more. Otherwise, when `c` is
    /// more urgent than the owner, the owner inherits `c`'s priority (a
    /// ready owner is requeued by it); then `c` blocks on the mutex and, once
    /// it runs again, owns it (handed over by [`Mutex::unlock`]).
    pub fn lock(&mut self, k: &mut Kernel)
        requires
            old(self).wf(),
            old(k).wf(),
            old(k).current is Some,
            old(self).holder() == Some(old(k).current->Some_0) ==> old(self).depth() < u32::MAX,
        ensures
            final(self).wf(),
            final(k).wf(),
            final(self).value() == old(self).value(),
            ({
                let c = old(k).current->Some_0;
                match old(self).holder() {
                    None => {
                        &&& final(self).holder() == Some(c)
                        &&& final(self).depth() == 1
                        &&& final(self).waiters() == old(self).waiters()
                        &&& *final(k) == *old(k)
                    },
                    Some(o) => if o == c {
                        &&& final(self).holder() == Some(c)
                        &&& final(self).depth() == old(self).depth() + 1
                        &&& final(self).waiters() == old(self).waiters()
                        &&& *final(k) == *old(k)
                    } else {
                        let p = old(k).tcbs@[c as int].priority;
                        let t1 = inherit(old(k).tcbs@, o, p);
                        let r1 = if p < old(k).tcbs@[o as int].priority && old(k).tcbs@[o as int].status
                            == TaskStatus::Ready {
                            ordered_insert(remove_first(old(k).ready_list@, o), o, prio_before(p, t1))
                        } else {
                            old(k).ready_list@
                        };
                        let t2 = t1.update(c as int, Tcb { status: TaskStatus::Blocked, ..t1[c as int] });
                        &&& final(self).holder() == old(self).holder()
                        &&& final(self).depth() == old(self).depth()
                        &&& final(self).waiters() == ordered_insert(
                            old(self).waiters(),
                            c,
                            prio_before(t2[c as int].priority, t2),
                        )
                        &&& final(k).tcbs@ == t2
                        &&& final(k).ready_list@ == remove_first(r1, c)
                        &&& *final(k) == (Kernel {
                            tcbs: final(k).tcbs,
                            ready_list: final(k).ready_list,
                            yield_pending: true,
                            ..*old(k)
                        })
                    },
                }
            }),
    {
        let c = match k.current {
            Some(c) => c,
            None => { return; },
        };
        let cr_tid = k.tcbs[c].tid;
        match self.owner {
            Some(owner_tid) => {
                if owner_tid == cr_tid {
                    self.recursive_count = self.recursive_count + 1;
                    return;
                }
                let cur_pri = k.tcbs[cr_tid].priority;
                if cur_pri < k.tcbs[owner_tid].priority {
                    if k.tcbs[owner_tid].sub_priority == PRI_INV {
                        k.tcbs[owner_tid].sub_priority = k.tcbs[owner_tid].priority;
                    }
                    k.tcbs[owner_tid].priority = cur_pri;
                    assert(k.tcbs@ =~= inherit(old(k).tcbs@, owner_tid, cur_pri));
                    if k.tcbs[owner_tid].status == TaskStatus::Ready {
                        proof {
                            lemma_remove_first_valid(k.ready_list@, owner_tid);
                        }
                        k.ready_list.remove(owner_tid);
                        let _ = insert_by_priority(&mut k.ready_list, &k.tcbs, owner_tid, cur_pri);
                    }
                }
                assert(k.tcbs@ =~= inherit(old(k).tcbs@, owner_tid, cur_pri));
                k.block_current_on(&mut self.wait_queue);
            },
            None => {
                self.owner = Some(cr_tid);
                self.recursive_count = 1;
            },
        }
    }

    /// Releases one level of the running task `c`'s hold. When the last level
    /// goes, `c`'s saved priority is restored and the mutex passes to the
    /// most urgent waiter, which becomes ready; a context switch is requested
    /// when that waiter, or else the front of the ready list, is more urgent
    /// than `c`.
    pub fn unlock(&mut self, k: &mut Kernel)
        requires
            old(self).wf(),
            old(k).wf(),
            old(k).current is Some,
            old(self).depth() >= 1,
        ensures
            final(self).wf(),
            final(k).wf(),
            unlock_effect(
                *old(self),
                *final(self),
                old(k).tcbs@,
                old(k).ready_list@,
                old(k).current->Some_0,
                *final(k),
            ),
            final(k).yield_pending == (old(k).yield_pending || unlock_switch(
                *old(self),
                old(k).tcbs@,
                old(k).ready_list@,
                old(k).current->Some_0,
            )),
            *final(k) == (Kernel {
                tcbs: final(k).tcbs,
                ready_list: final(k).ready_list,
                yield_pending: final(k).yield_pending,
                ..*old(k)
            }),
    {
        let c = match k.current {
            Some(c) => c,
            None => { return; },
        };
        let cr_tid = k.tcbs[c].tid;
        self.recursive_count = self.recursive_count - 1;
        if self.recursive_count > 0 {
            return;
        }
        if k.tcbs[cr_tid].sub_priority != PRI_INV {
            k.tcbs[cr_tid].priority = k.tcbs[cr_tid].sub_priority;
            k.tcbs[cr_tid].sub_priority = PRI_INV;
        }
        assert(k.tcbs@ =~= restore(old(k).tcbs@, c));
        self.owner = None;
        let ghost wq = self.wait_queue@;
        match self.wait_queue.pop_front() {
            Some(woken_tid) => {
                proof {
                    assert(wq[0] < TASK_MAX);
                    assert forall|i: int| 0 <= i < self.wait_queue@.len() implies #[trigger] self.wait_queue@[i] < TASK_MAX by {
                        assert(self.wait_queue@[i] == wq[i + 1]);
                    }
                }
                self.owner = Some(woken_tid);
                self.recursive_count = 1;
                k.tcbs[woken_tid].status = TaskStatus::Ready;
                assert(k.tcbs@ =~= restore(old(k).tcbs@, c).update(
                    woken_tid as int,
                    Tcb { status: TaskStatus::Ready, ..restore(old(k).tcbs@, c)[woken_tid as int] },
                ));
                let wp = k.tcbs[woken_tid].priority;
                let _ = insert_by_priority(&mut k.ready_list, &k.tcbs, woken_tid, wp);
                if wp < k.tcbs[cr_tid].priority {
                    k.yield_pending = true;
                }
            },
            None => {
                match k.ready_list.front() {
                    Some(front_tid) => {
                        if k.tcbs[front_tid].priority < k.tcbs[cr_tid].priority {
                            k.yield_pending = true;
                        }
                    },
                    None => {},
                }
            },
        }
    }

    /// The guarded value.
    pub fn data(&self) -> (r: &T)
        ensures
            *r == self.value(),
    {
        &self.data
    }

    /// Replaces the guarded value.
    pub fn set_data(&mut self, v: T)
        ensures
            final(self).value() == v,
            final(self).holder() == old(self).holder(),
            final(self).depth() == old(self).depth(),
            final(self).waiters() == old(self).waiters(),
            final(self).wf() == old(self).wf(),
    {
        self.data = v;
    }
}

// ==========================================
// Condition variable
// ==========================================

/// The ready list and control blocks after the tasks `ws` are made ready
/// in order, each queued by priority.
pub open spec fn ready_all(ready: Seq<usize>, ws: Seq<usize>, tcbs: Seq<Tcb>) -> (Seq<usize>, Seq<
    Tcb,
>)
    decreases ws.len(),
{
    if ws.len() == 0 {
        (ready, tcbs)
    } else {
        let w = ws[0];
        let t2 = tcbs.update(w as int, Tcb { status: TaskStatus::Ready, ..tcbs[w as int] });
        ready_all(
            ordered_insert(ready, w, prio_before(t2[w as int].priority, t2)),
            ws.drop_first(),
            t2,
        )
    }
}

/// A condition variable: tasks wait on it and are woken in queue order.
pub struct CondVar {
    wait_queue: TaskList,
}

impl CondVar {
    /// The wait queue is within capacity and names valid slots.
    pub closed spec fn wf(&self) -> bool {
        self.wait_queue.wf() && ids_valid(self.wait_queue@)
    }

    /// The waiting tasks, in arrival order.
    pub closed spec fn waiters(&self) -> Seq<usize> {
        self.wait_queue@
    }

    /// What well-formedness gives a caller: at most `TASK_MAX` waiters, each
    /// naming a task slot.
    pub proof fn lemma_wf(&self)
        requires
            self.wf(),
        ensures
            ids_valid(self.waiters()),
            self.waiters().len() <= TASK_MAX,
    {
    }

    /// A condition variable nobody waits on.
    pub fn new() -> (r: Self)
        ensures
            r.wf(),
            r.waiters() == Seq::<usize>::empty(),
    {
        CondVar { wait_queue: TaskList::new() }
    }

    /// The running task `c` waits: it joins the wait queue (when there is
    /// room), is blocked, leaves the ready list, releases one level of the
    /// mutex `m`, and a context switch is requested. Once woken and running
    /// again, the task takes the mutex back with [`Mutex::lock`].
    pub fn wait<T>(&mut self, k: &mut Kernel, m: &mut Mutex<T>)
        requires
            old(self).wf(),
            old(k).wf(),
            old(m).wf(),
            old(k).current is Some,
            old(m).depth() >= 1,
        ensures
            final(self).wf(),
            final(k).wf(),
            final(m).wf(),
            ({
                let c = old(k).current->Some_0;
                let tcbs = old(k).tcbs@.update(
                    c as int,
                    Tcb { status: TaskStatus::Blocked, ..old(k).tcbs@[c as int] },
                );
                &&& final(self).waiters() == (if old(self).waiters().len() < TASK_MAX {
                    old(self).waiters().push(c)
                } else {
                    old(self).waiters()
                })
                &&& unlock_effect(
                    *old(m),
                    *final(m),
                    tcbs,
                    remove_first(old(k).ready_list@, c),
                    c,
                    *final(k),
                )
                &&& *final(k) == (Kernel {
                    tcbs: final(k).tcbs,
                    ready_list: final(k).ready_list,
                    yield_pending: true,
                    ..*old(k)
                })
            }),
    {
        let c = match k.current {
            Some(c) => c,
            None => { return; },
        };
        let cr_tid = k.tcbs[c].tid;
        let _ = self.wait_queue.push_back(cr_tid);
        proof {
            assert forall|i: int| 0 <= i < self.wait_queue@.len() implies #[trigger] self.wait_queue@[i] < TASK_MAX by {
                if i < old(self).wait_queue@.len() {
                    assert(self.wait_queue@[i] == old(self).wait_queue@[i]);
                }
            }
        }
        k.tcbs[cr_tid].status = TaskStatus::Blocked;
        proof {
            lemma_remove_first_valid(k.ready_list@, cr_tid);
        }
        k.ready_list.remove(cr_tid);
        m.unlock(k);
        k.yield_pending = true;
    }

    /// Wakes the first waiter, if any: it becomes ready, is queued by
    /// priority, and a context switch is requested.
    pub fn notify(&mut self, k: &mut Kernel)
        requires
            old(self).wf(),
            old(k).wf(),
        ensures
            final(self).wf(),
            final(k).wf(),
            old(self).waiters().len() == 0 ==> *final(k) == *old(k) && final(self).waiters() == old(
                self,
            ).waiters(),
            old(self).waiters().len() > 0 ==> {
                &&& final(self).waiters() == old(self).waiters().drop_first()
                &&& final(k).yield_pending
                &&& readied(
                    *old(k),
                    Kernel { yield_pending: old(k).yield_pending, ..*final(k) },
                    old(self).waiters()[0],
                    false,
                )
            },
    {
        let ghost wq = self.wait_queue@;
        match self.wait_queue.pop_front() {
            Some(woken_tid) => {
                proof {
                    assert(wq[0] < TASK_MAX);
                    assert forall|i: int| 0 <= i < self.wait_queue@.len() implies #[trigger] self.wait_queue@[i] < TASK_MAX by {
                        assert(self.wait_queue@[i] == wq[i + 1]);
                    }
                }
                k.make_ready(woken_tid, false);
                k.yield_pending = true;
            },
            None => {},
        }
    }

    /// Wakes every waiter in queue order: each becomes ready and is queued
    /// by priority; a context switch is requested when anyone was woken.
    pub fn notify_all(&mut self, k: &mut Kernel)
        requires
            old(self).wf(),
            old(k).wf(),
        ensures
            final(self).wf(),
            final(k).wf(),
            final(self).waiters() == Seq::<usize>::empty(),
            ({
                let r = ready_all(old(k).ready_list@, old(self).waiters(), old(k).tcbs@);
                &&& final(k).ready_list@ == r.0
                &&& final(k).tcbs@ == r.1
                &&& final(k).yield_pending == (old(k).yield_pending || old(self).waiters().len() > 0)
                &&& *final(k) == (Kernel {
                    tcbs: final(k).tcbs,
                    ready_list: final(k).ready_list,
                    yield_pending: final(k).yield_pending,
                    ..*old(k)
                })
            }),
    {
        let ghost target = ready_all(old(k).ready_list@, old(self).waiters(), old(k).tcbs@);
        let mut woken = false;
        while !self.wait_queue.is_empty()
            invariant
                self.wf(),
                k.wf(),
                target == ready_all(k.ready_list@, self.wait_queue@, k.tcbs@),
                woken == (self.wait_queue@.len() < old(self).wait_queue@.len()),
                self.wait_queue@.len() <= old(self).wait_queue@.len(),
                *k == (Kernel {
                    tcbs: k.tcbs,
                    ready_list: k.ready_list,
                    ..*old(k)
                }),
            decreases self.wait_queue@.len(),
        {
            let ghost wq = self.wait_queue@;
            let popped = self.wait_queue.pop_front();
            if let Some(woken_tid) = popped {
                proof {
                    assert(wq[0] < TASK_MAX);
                    assert forall|i: int| 0 <= i < self.wait_queue@.len() implies #[trigger] self.wait_queue@[i] < TASK_MAX by {
                        assert(self.wait_queue@[i] == wq[i + 1]);
                    }
                }
                let ghost tc = k.tcbs@;
                k.make_ready(woken_tid, false);
                proof {
                    assert(k.tcbs@ =~= tc.update(
                        woken_tid as int,
                        Tcb { status: TaskStatus::Ready, ..tc[woken_tid as int] },
                    ));
                }
                woken = true;
            }
        }
        if woken {
            k.yield_pending = true;
        }
    }
}

// ==========================================
// Barrier
// ==========================================

/// Arrival count and generation of a barrier.
pub struct BarrierState {
    pub count: u32,
    pub generation: u32,
}

impl BarrierState {
    /// A task arrives. The last of `total` arrivals resets the count, opens a
    /// new generation (wrapping) and returns `true`; otherwise the count rises.
    pub fn arrive(&mut self, total: u32) -> (r: bool)
        requires
            old(self).count < u32::MAX,
        ensures
            r == (old(self).count + 1 == total),
            r ==> final(self).count == 0 && final(self).generation == wrapping_add(
                old(self).generation,
                1,
            ),
            !r ==> final(self).count == old(self).count + 1 && final(self).generation == old(
                self,
            ).generation,
    {
        self.count = self.count + 1;
        if self.count == total {
            self.count = 0;
            self.generation = self.generation.wrapping_add(1);
            true
        } else {
            false
        }
    }

    /// Whether the generation a waiter arrived in (`my_gen`) has passed.
    pub fn passed(&self, my_gen: u32) -> (r: bool)
        ensures
            r == (self.generation != my_gen),
    {
        self.generation != my_gen
    }
}

/// What a task does after arriving at a barrier.
pub enum BarrierStep {
    /// The barrier opened: the task goes on.
    Passed,
    /// The task waits for the generation it arrived in to pass.
    Wait(u32),
}

/// A barrier for `total` tasks: a mutex-guarded state and a condition
/// variable the early arrivals wait on.
pub struct Barrier {
    pub mutex: Mutex<BarrierState>,
    pub cv: CondVar,
    pub total: u32,
}

impl Barrier {
    /// A barrier for `total` tasks with nobody arrived, generation 0.
    pub fn new(total: u32) -> (r: Self)
        ensures
            r.mutex.wf(),
            r.cv.wf(),
            r.total == total,
            r.mutex.holder() is None,
            r.mutex.value().count == 0,
            r.mutex.value().generation == 0,
            r.cv.waiters() == Seq::<usize>::empty(),
    {
        Barrier {
            mutex: Mutex::new(BarrierState { count: 0, generation: 0 }),
            cv: CondVar::new(),
            total,
        }
    }

    /// Barrier wait, first step: the running task `c` arrives while holding
    /// the barrier's mutex (taken with [`Mutex::lock`]). The last of `total`
    /// arrivals resets the count, opens a new generation (wrapping),
    /// releases one level of the mutex and wakes every task waiting on the
    /// condition variable: it has passed. An earlier arrival counts itself,
    /// keeps the mutex and is told the generation it arrived in; it then
    /// waits with [`CondVar::wait`], takes the mutex back with
    /// [`Mutex::lock`] once running, and calls [`Barrier::recheck`].
    pub fn arrive(&mut self, k: &mut Kernel) -> (r: BarrierStep)
        requires
            old(self).mutex.wf(),
            old(self).cv.wf(),
            old(k).wf(),
            old(k).current is Some,
            old(self).mutex.depth() >= 1,
            old(self).mutex.value().count < u32::MAX,
        ensures
            final(self).mutex.wf(),
            final(self).cv.wf(),
            final(k).wf(),
            final(self).total == old(self).total,
            ({
                let st = old(self).mutex.value();
                let c = old(k).current->Some_0;
                let ws = old(self).cv.waiters();
                if st.count + 1 == old(self).total {
                    &&& r is Passed
                    &&& final(self).mutex.value() == (BarrierState {
                        count: 0,
                        generation: wrapping_add(st.generation, 1),
                    })
                    &&& final(self).cv.waiters() == Seq::<usize>::empty()
                    &&& exists|k1: Kernel|
                        {
                            &&& #[trigger] release_effect(
                                old(self).mutex,
                                final(self).mutex,
                                old(k).tcbs@,
                                old(k).ready_list@,
                                c,
                                k1,
                            )
                            &&& final(k).ready_list@ == ready_all(k1.ready_list@, ws, k1.tcbs@).0
                            &&& final(k).tcbs@ == ready_all(k1.ready_list@, ws, k1.tcbs@).1
                        }
                    &&& final(k).yield_pending == (old(k).yield_pending || unlock_switch(
                        old(self).mutex,
                        old(k).tcbs@,
                        old(k).ready_list@,
                        c,
                    ) || ws.len() > 0)
                    &&& *final(k) == (Kernel {
                        tcbs: final(k).tcbs,
                        ready_list: final(k).ready_list,
                        yield_pending: final(k).yield_pending,
                        ..*old(k)
                    })
                } else {
                    &&& (r matches BarrierStep::Wait(g) && g == st.generation)
                    &&& final(self).mutex.value() == (BarrierState {
                        count: (st.count + 1) as u32,
                        generation: st.generation,
                    })
                    &&& final(self).mutex.holder() == old(self).mutex.holder()
                    &&& final(self).mutex.depth() == old(self).mutex.depth()
                    &&& final(self).mutex.waiters() == old(self).mutex.waiters()
                    &&& final(self).cv == old(self).cv
                    &&& *final(k) == *old(k)
                }
            }),
    {
        let last = self.mutex.data.arrive(self.total);
        if last {
            let ghost c = k.current->Some_0;
            let ghost m_mid = self.mutex;
            self.mutex.unlock(k);
            let ghost k1 = *k;
            self.cv.notify_all(k);
            proof {
                assert(release_effect(m_mid, self.mutex, old(k).tcbs@, old(k).ready_list@, c, k1));
                assert(release_effect(
                    old(self).mutex,
                    self.mutex,
                    old(k).tcbs@,
                    old(k).ready_list@,
                    c,
                    k1,
                ));
            }
            BarrierStep::Passed
        } else {
            BarrierStep::Wait(self.mutex.data.generation)
        }
    }

    /// Barrier wait, after being woken and taking the mutex back: when the
    /// generation `my_gen` the task arrived in has passed, the task releases
    /// one level of the mutex (see [`Mutex::unlock`]) and has passed (`true`);
    /// otherwise nothing changes and it waits again (`false`).
    pub fn recheck(&mut self, k: &mut Kernel, my_gen: u32) -> (r: bool)
        requires
            old(self).mutex.wf(),
            old(k).wf(),
            old(k).current is Some,
            old(self).mutex.depth() >= 1,
        ensures
            final(self).mutex.wf(),
            final(k).wf(),
            final(self).total == old(self).total,
            final(self).cv == old(self).cv,
            r == (old(self).mutex.value().generation != my_gen),
            r ==> {
                &&& unlock_effect(
                    old(self).mutex,
                    final(self).mutex,
                    old(k).tcbs@,
                    old(k).ready_list@,
                    old(k).current->Some_0,
                    *final(k),
                )
                &&& final(k).yield_pending == (old(k).yield_pending || unlock_switch(
                    old(self).mutex,
                    old(k).tcbs@,
                    old(k).ready_list@,
                    old(k).current->Some_0,
                ))
                &&& *final(k) == (Kernel {
                    tcbs: final(k).tcbs,
                    ready_list: final(k).ready_list,
                    yield_pending: final(k).yield_pending,
                    ..*old(k)
                })
            },
            !r ==> final(self).mutex == old(self).mutex && *final(k) == *old(k),
    {
        if self.mutex.data.passed(my_gen) {
            self.mutex.unlock(k);
            true
        } else {
            false
        }
    }
}

// ==========================================
// Laws
// ==========================================

/// Priority inheritance is undone by the release: a task that inherits a
/// more urgent priority while holding a mutex runs at the more urgent of the
/// two, and gets its own priority back (with nothing saved) when it
/// releases the mutex.
pub proof fn law_inherit_then_restore(tcbs: Seq<Tcb>, o: usize, p: u8)
    requires
        o < tcbs.len(),
        tcbs[o as int].sub_priority == PRI_INV,
        tcbs[o as int].priority != PRI_INV,
    ensures
        inherit(tcbs, o, p)[o as int].priority == vstd::math::min(
            p as int,
            tcbs[o as int].priority as int,
        ),
        restore(inherit(tcbs, o, p), o)[o as int].priority == tcbs[o as int].priority,
        restore(inherit(tcbs, o, p), o)[o as int].sub_priority == PRI_INV,
        forall|i: int|
            0 <= i < tcbs.len() && i != o ==> #[trigger] restore(inherit(tcbs, o, p), o)[i] == tcbs[i],
{
}

/// A semaphore waiter that is handed a unit is queued to run and is no
/// longer asleep: it cannot be both ready and waiting for a wake-up time,
/// so its lapsed timeout cannot wake it a second time.
pub proof fn law_sema_handoff_not_asleep(pre: Kernel, post: Kernel, w: usize, switch: bool)
    requires
        pre.wf(),
        w < TASK_MAX,
        sema_woken(pre, post, w, switch),
        pre.sleeping_list@.no_duplicates(),
        pre.ready_list@.len() < TASK_MAX,
    ensures
        !post.sleeping_list@.contains(w),
        post.ready_list@.contains(w),
        post.tcbs@[w as int].status == TaskStatus::Ready,
        post.tcbs@[w as int].wake_point == 0,
{
    let sl = pre.sleeping_list@;
    if sl.contains(w) {
        lemma_first_index(sl, w);
        let fi = first_index(sl, w);
        assert forall|j: int| 0 <= j < post.sleeping_list@.len() implies post.sleeping_list@[j] != w by {
            if j < fi {
                assert(post.sleeping_list@[j] == sl[j]);
            } else {
                assert(post.sleeping_list@[j] == sl[j + 1]);
            }
        }
    }
    let tcbs = post.tcbs@;
    let before = prio_before(tcbs[w as int].priority, tcbs);
    lemma_first_true_bound(pre.ready_list@, before);
    let pos = first_true(pre.ready_list@, before);
    assert(post.ready_list@[pos] == w);
}

/// The priorities after a mutex owner `o` sees contenders of priorities
/// `ps`, one after another (see [`inherit`]).
pub open spec fn inherit_all(tcbs: Seq<Tcb>, o: usize, ps: Seq<u8>) -> Seq<Tcb>
    decreases ps.len(),
{
    if ps.len() == 0 {
        tcbs
    } else {
        inherit_all(inherit(tcbs, o, ps[0]), o, ps.drop_first())
    }
}

proof fn lemma_inherit_all(tcbs: Seq<Tcb>, o: usize, ps: Seq<u8>, own: u8)
    requires
        o < tcbs.len(),
        own != PRI_INV,
        (tcbs[o as int].sub_priority == PRI_INV && tcbs[o as int].priority == own) || (
        tcbs[o as int].sub_priority == own && tcbs[o as int].priority <= own),
    ensures
        ({
            let t = inherit_all(tcbs, o, ps);
            &&& t.len() == tcbs.len()
            &&& (t[o as int].sub_priority == PRI_INV && t[o as int].priority == own) || (
            t[o as int].sub_priority == own && t[o as int].priority <= own)
            &&& t[o as int].priority <= tcbs[o as int].priority
            &&& forall|j: int| 0 <= j < ps.len() ==> t[o as int].priority <= #[trigger] ps[j]
            &&& forall|i: int| 0 <= i < tcbs.len() && i != o ==> #[trigger] t[i] == tcbs[i]
        }),
    decreases ps.len(),
{
    if ps.len() > 0 {
        let t1 = inherit(tcbs, o, ps[0]);
        lemma_inherit_all(t1, o, ps.drop_first(), own);
        let t = inherit_all(tcbs, o, ps);
        assert forall|j: int| 0 <= j < ps.len() implies t[o as int].priority <= #[trigger] ps[j] by {
            if j > 0 {
                assert(ps[j] == ps.drop_first()[j - 1]);
            }
        }
    }
}

/// However many more urgent tasks contend for a mutex, and in whatever
/// order, its owner runs at least as urgently as each of them and never less
/// urgently than its own priority; when it releases the mutex it gets its
/// own original priority back, with nothing left saved, and no other task's
/// block changes.
pub proof fn law_contention_restores_own_priority(tcbs: Seq<Tcb>, o: usize, ps: Seq<u8>)
    requires
        o < tcbs.len(),
        tcbs[o as int].sub_priority == PRI_INV,
        tcbs[o as int].priority != PRI_INV,
    ensures
        ({
            let t = inherit_all(tcbs, o, ps);
            &&& t[o as int].priority <= tcbs[o as int].priority
            &&& forall|j: int| 0 <= j < ps.len() ==> t[o as int].priority <= #[trigger] ps[j]
            &&& restore(t, o)[o as int].priority == tcbs[o as int].priority
            &&& restore(t, o)[o as int].sub_priority == PRI_INV
            &&& forall|i: int| 0 <= i < tcbs.len() && i != o ==> #[trigger] restore(t, o)[i] == tcbs[i]
        }),
{
    lemma_inherit_all(tcbs, o, ps, tcbs[o as int].priority);
}

/// Handing a semaphore unit to a waiter requests a context switch exactly
/// when switching is asked for (`up`, not `up_from_isr`) and the waiter is
/// more urgent than the running task (an earlier request stays); the
/// priorities themselves do not change.
pub proof fn law_sema_wake_preempts(pre: Kernel, post: Kernel, w: usize, switch: bool)
    requires
        pre.wf(),
        w < TASK_MAX,
        sema_woken(pre, post, w, switch),
    ensures
        post.yield_pending == (pre.yield_pending || (switch && pre.current is Some
            && pre.tcbs@[w as int].priority < pre.tcbs@[pre.current->Some_0 as int].priority)),
        forall|i: int| 0 <= i < TASK_MAX ==> (#[trigger] post.tcbs@[i]).priority == pre.tcbs@[i].priority,
{
}

/// A task that blocks on an empty wait queue is the first to be woken.
pub proof fn law_lone_waiter_woken_first(c: usize, p: u8, tcbs: Seq<Tcb>)
    ensures
        ordered_insert(Seq::<usize>::empty(), c, prio_before(p, tcbs)) == seq![c],
{
    assert(first_true(Seq::<usize>::empty(), prio_before(p, tcbs)) == 0);
    assert(Seq::<usize>::empty().insert(0, c) =~= seq![c]);
}

} // verus!
