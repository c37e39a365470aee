//! Task creation and life-cycle operations.
//!
//! Each operation updates the kernel state; where the running task must
//! give up the processor, the operation sets `yield_pending`, and the
//! caller performs the context switch.

use vstd::prelude::*;
use crate::config::{PAGE_SIZE, PAGE_SIZE_WORDS, PRI_INV, TASK_MAX, TIME_SLICE};
use crate::kernel::global::{
    Kernel, ids_valid, insert_by_priority, insert_by_wake_point, ordered_insert, prio_before,
    wake_before, tid_used, stack_addr, lemma_remove_first_valid,
};
use crate::kernel::list::{remove_first, lemma_remove_first_gone};
use crate::kernel::sched::{wake_scan, lemma_wake_scan_members};
use crate::kernel::tcb::{
    Tcb, TaskStatus, CONTEXT_WORDS, framed_stack, init_stack_frame, init_stack_frame_raw,
};
use vstd::wrapping::u32_specs::wrapping_add;

verus! {

/// `<str as PartialEq>::eq`: whether the two strings hold the same characters.
#[verifier::external_body]
fn str_eq(a: &str, b: &str) -> (r: bool)
    ensures
        r == (a@ == b@),
{
    a == b
}

/// The control block of a task just created in slot `tid`.
pub open spec fn created_tcb(
    tid: usize,
    priority: u8,
    name: &'static str,
    sp: u32,
    stack_bottom: u32,
    heap_stack_base: u32,
) -> Tcb {
    Tcb {
        sp,
        tid,
        status: TaskStatus::Ready,
        priority,
        sub_priority: PRI_INV,
        time_slice: TIME_SLICE,
        wake_point: 0,
        sleep_start: 0,
        name,
        stack_bottom,
        heap_stack_base,
    }
}

/// Whether slot `t` holds a live task named `name`.
pub open spec fn named_live(tcbs: Seq<Tcb>, t: int, name: Seq<char>) -> bool {
    tcbs[t].status != TaskStatus::Terminated && tcbs[t].name@ == name
}

/// Every slot is allocated.
pub open spec fn pool_full(bm: u32) -> bool {
    forall|u: int| 0 <= u < TASK_MAX ==> tid_used(bm, u)
}

/// `t` is the lowest free slot.
pub open spec fn lowest_free(bm: u32, t: int) -> bool {
    &&& 0 <= t < TASK_MAX
    &&& !tid_used(bm, t)
    &&& forall|u: int| 0 <= u < t ==> tid_used(bm, u)
}

/// Releasing a slot below which every slot is taken makes it the lowest
/// free slot again, so the next allocation returns it; an allocated slot
/// reads as taken.
pub proof fn law_free_then_alloc(bm: u32, t: u32)
    requires
        t < TASK_MAX,
        forall|u: int| 0 <= u < t ==> tid_used(bm, u),
    ensures
        lowest_free(bm & !(1u32 << t), t as int),
        tid_used(bm | (1u32 << t), t as int),
{
    let nb = bm & !(1u32 << t);
    assert(t < 32 ==> (nb >> t) & 1u32 != 1u32) by (bit_vector)
        requires
            nb == bm & !(1u32 << t),
    ;
    assert forall|u: int| 0 <= u < t implies tid_used(nb, u) by {
        let uu = u as u32;
        assert(tid_used(bm, u));
        assert(uu < t && t < 32 && (bm >> uu) & 1u32 == 1u32 ==> (nb >> uu) & 1u32 == 1u32)
            by (bit_vector)
            requires
                nb == bm & !(1u32 << t),
        ;
    }
    let ob = bm | (1u32 << t);
    assert(t < 32 ==> (ob >> t) & 1u32 == 1u32) by (bit_vector)
        requires
            ob == bm | (1u32 << t),
    ;
}

/// The kernel `post` and result `r` of creating a task with the given
/// priority, name, entry and exit addresses in kernel `pre`.
pub open spec fn created(
    pre: Kernel,
    post: Kernel,
    priority: u8,
    name: &'static str,
    entry: u32,
    exit: u32,
    r: Result<usize, &'static str>,
) -> bool {
    match r {
        Err(e) => {
            &&& pool_full(pre.tid_bitmap)
            &&& e == "Task pool is full"
            &&& post == pre
        },
        Ok(t) => {
            let bottom = stack_addr(pre.stack_base, t as int);
            let sp = bottom + 4 * (PAGE_SIZE_WORDS - CONTEXT_WORDS);
            let tcbs = pre.tcbs@.update(
                t as int,
                created_tcb(t, priority, name, sp as u32, bottom as u32, 0),
            );
            &&& lowest_free(pre.tid_bitmap, t as int)
            &&& post.tid_bitmap == pre.tid_bitmap | (1u32 << (t as u32))
            &&& post.tcbs@ == tcbs
            &&& post.stacks@.len() == TASK_MAX
            &&& post.stacks@[t as int]@ == framed_stack(
                pre.stacks@[t as int]@,
                entry,
                0,
                exit,
            )
            &&& forall|u: int|
                0 <= u < TASK_MAX && u != t ==> #[trigger] post.stacks@[u] == pre.stacks@[u]
            &&& post.ready_list@ == ordered_insert(
                pre.ready_list@,
                t,
                prio_before(priority, tcbs),
            )
            &&& post.yield_pending == (pre.yield_pending || (pre.sched_ready
                && pre.current is Some && priority < tcbs[pre.current->Some_0 as int].priority))
            &&& post == (Kernel {
                tcbs: post.tcbs,
                stacks: post.stacks,
                tid_bitmap: post.tid_bitmap,
                ready_list: post.ready_list,
                yield_pending: post.yield_pending,
                ..pre
            })
        },
    }
}

/// The kernel `post`, the stack words `post_stack` and the result `r` of
/// creating a task on a caller-provided stack (holding `pre_stack`, first
/// word at `stack_addr`) in kernel `pre`.
pub open spec fn created_raw(
    pre: Kernel,
    post: Kernel,
    pre_stack: Seq<u32>,
    post_stack: Seq<u32>,
    entry: u32,
    param: u32,
    priority: u8,
    name: &'static str,
    exit: u32,
    stack_addr: u32,
    r: Result<usize, &'static str>,
) -> bool {
    match r {
        Err(e) => {
            &&& pool_full(pre.tid_bitmap)
            &&& e == "Task pool is full"
            &&& post == pre
            &&& post_stack == pre_stack
        },
        Ok(t) => {
            let sp = stack_addr + 4 * (pre_stack.len() - CONTEXT_WORDS);
            let tcbs = pre.tcbs@.update(
                t as int,
                created_tcb(t, priority, name, sp as u32, stack_addr, stack_addr),
            );
            &&& lowest_free(pre.tid_bitmap, t as int)
            &&& post.tid_bitmap == pre.tid_bitmap | (1u32 << (t as u32))
            &&& post.tcbs@ == tcbs
            &&& post_stack == framed_stack(pre_stack, entry, param, exit)
            &&& post.ready_list@ == ordered_insert(pre.ready_list@, t, prio_before(priority, tcbs))
            &&& post == (Kernel {
                tcbs: post.tcbs,
                tid_bitmap: post.tid_bitmap,
                ready_list: post.ready_list,
                ..pre
            })
        },
    }
}

/// The kernel `post` after terminating slot `tid` in kernel `pre`: a live
/// task leaves the ready, sleeping and blocked lists, its slot is released,
/// its block reads terminated and a context switch is requested; a task
/// already terminated leaves the kernel as it is.
pub open spec fn terminated(pre: Kernel, post: Kernel, tid: usize) -> bool {
    if pre.tcbs@[tid as int].status == TaskStatus::Terminated {
        post == pre
    } else {
        &&& post.ready_list@ == remove_first(pre.ready_list@, tid)
        &&& post.sleeping_list@ == remove_first(pre.sleeping_list@, tid)
        &&& post.blocked_list@ == remove_first(pre.blocked_list@, tid)
        &&& post.tid_bitmap == pre.tid_bitmap & !(1u32 << (tid as u32))
        &&& post.tcbs@ == pre.tcbs@.update(
            tid as int,
            Tcb { status: TaskStatus::Terminated, ..pre.tcbs@[tid as int] },
        )
        &&& post == (Kernel {
            tcbs: post.tcbs,
            ready_list: post.ready_list,
            sleeping_list: post.sleeping_list,
            blocked_list: post.blocked_list,
            tid_bitmap: post.tid_bitmap,
            yield_pending: true,
            ..pre
        })
    }
}

/// Task-management entry points.
pub struct Task;

impl Task {
    /// Creates a task in the lowest free slot with the given priority and
    /// name. Its stack from the pool receives an initial frame that enters
    /// at `entry` and returns into `exit`; the task is queued by priority, and
    /// a context switch is requested when the scheduler runs and the new task
    /// is more urgent than the running one. Fails when every slot is taken.
    pub fn create(k: &mut Kernel, priority: u8, name: &'static str, entry: u32, exit: u32) -> (r:
        Result<usize, &'static str>)
        requires
            old(k).wf(),
        ensures
            final(k).wf(),
            created(*old(k), *final(k), priority, name, entry, exit, r),
    {
        let tid = match k.alloc_tid() {
            Some(t) => t,
            None => { return Err("Task pool is full"); },
        };
        let ghost tcbs0 = k.tcbs@;
        let addr: u32 = k.stack_base + (tid * PAGE_SIZE) as u32;
        assert(addr + 4 * PAGE_SIZE_WORDS <= u32::MAX);
        let sp = init_stack_frame(k.stacks[tid].as_mut_slice(), addr, entry, 0, exit);
        k.tcbs[tid].sp = sp;
        k.tcbs[tid].status = TaskStatus::Ready;
        k.tcbs[tid].priority = priority;
        k.tcbs[tid].time_slice = TIME_SLICE;
        k.tcbs[tid].name = name;
        k.tcbs[tid].stack_bottom = addr;
        let _ = insert_by_priority(&mut k.ready_list, &k.tcbs, tid, priority);
        if k.sched_ready {
            match k.current {
                Some(c) => {
                    if priority < k.tcbs[c].priority {
                        k.yield_pending = true;
                    }
                },
                None => {},
            }
        }
        proof {
            assert(k.tcbs@ =~= old(k).tcbs@.update(
                tid as int,
                created_tcb(tid, priority, name, sp, addr, 0),
            ));
        }
        Ok(tid)
    }

    /// Creates a task in the lowest free slot on a caller-provided stack whose
    /// first word lives at `stack_addr`; the task enters at `entry` with
    /// argument `param` and returns into `exit`. The task is queued by
    /// priority; no context switch is requested. Fails when every slot is taken.
    pub fn create_raw(
        k: &mut Kernel,
        entry: u32,
        param: u32,
        priority: u8,
        name: &'static str,
        exit: u32,
        stack: &mut [u32],
        stack_addr: u32,
    ) -> (r: Result<usize, &'static str>)
        requires
            old(k).wf(),
            old(stack)@.len() > CONTEXT_WORDS,
            stack_addr + 4 * old(stack)@.len() <= u32::MAX,
        ensures
            final(k).wf(),
            created_raw(*old(k), *final(k), old(stack)@, final(stack)@, entry, param, priority, name, exit, stack_addr, r),
    {
        let tid = match k.alloc_tid() {
            Some(t) => t,
            None => { return Err("Task pool is full"); },
        };
        let sp = init_stack_frame_raw(stack, stack_addr, entry, param, exit);
        k.tcbs[tid].sp = sp;
        k.tcbs[tid].status = TaskStatus::Ready;
        k.tcbs[tid].priority = priority;
        k.tcbs[tid].time_slice = TIME_SLICE;
        k.tcbs[tid].name = name;
        k.tcbs[tid].stack_bottom = stack_addr;
        k.tcbs[tid].heap_stack_base = stack_addr;
        let _ = insert_by_priority(&mut k.ready_list, &k.tcbs, tid, priority);
        proof {
            assert(k.tcbs@ =~= old(k).tcbs@.update(
                tid as int,
                created_tcb(tid, priority, name, sp, stack_addr, stack_addr),
            ));
        }
        Ok(tid)
    }

    /// The lowest slot holding a live task named `name`.
    pub fn find_tid(k: &Kernel, name: &str) -> (r: Option<usize>)
        requires
            k.wf(),
        ensures
            match r {
                Some(t) => t < TASK_MAX && named_live(k.tcbs@, t as int, name@) && forall|u: int|
                    0 <= u < t ==> !named_live(k.tcbs@, u, name@),
                None => forall|u: int| 0 <= u < TASK_MAX ==> !named_live(k.tcbs@, u, name@),
            },
    {
        let mut tid: usize = 0;
        while tid < TASK_MAX
            invariant
                k.wf(),
                tid <= TASK_MAX,
                forall|u: int| 0 <= u < tid ==> !named_live(k.tcbs@, u, name@),
            decreases TASK_MAX - tid,
        {
            if k.tcbs[tid].status != TaskStatus::Terminated && str_eq(k.tcbs[tid].name, name) {
                return Some(tid);
            }
            tid = tid + 1;
        }
        None
    }

    /// Blocks a ready or running task: it leaves the ready list, joins the
    /// blocked list and a context switch is requested. Other tasks are left
    /// as they are.
    pub fn block(k: &mut Kernel, tid: usize)
        requires
            old(k).wf(),
            tid < TASK_MAX,
        ensures
            final(k).wf(),
            ({
                let s = old(k).tcbs@[tid as int].status;
                if s == TaskStatus::Ready || s == TaskStatus::Running {
                    &&& final(k).tcbs@ == old(k).tcbs@.update(
                        tid as int,
                        Tcb { status: TaskStatus::Blocked, ..old(k).tcbs@[tid as int] },
                    )
                    &&& final(k).ready_list@ == remove_first(old(k).ready_list@, tid)
                    &&& final(k).blocked_list@ == (if old(k).blocked_list@.len() < TASK_MAX {
                        old(k).blocked_list@.push(tid)
                    } else {
                        old(k).blocked_list@
                    })
                    &&& *final(k) == (Kernel {
                        tcbs: final(k).tcbs,
                        ready_list: final(k).ready_list,
                        blocked_list: final(k).blocked_list,
                        yield_pending: true,
                        ..*old(k)
                    })
                } else {
                    *final(k) == *old(k)
                }
            }),
    {
        let st = k.tcbs[tid].status;
        if st == TaskStatus::Ready || st == TaskStatus::Running {
            k.tcbs[tid].status = TaskStatus::Blocked;
            proof {
                lemma_remove_first_valid(k.ready_list@, tid);
            }
            k.ready_list.remove(tid);
            let _ = k.blocked_list.push_back(tid);
            k.yield_pending = true;
            proof {
                assert forall|i: int| 0 <= i < k.blocked_list@.len() implies #[trigger] k.blocked_list@[i] < TASK_MAX by {
                    if i < old(k).blocked_list@.len() {
                        assert(k.blocked_list@[i] == old(k).blocked_list@[i]);
                    }
                }
            }
        }
    }

    /// Resumes a task blocked by [`Task::block`]: it leaves the blocked list,
    /// becomes ready and is queued by priority; a context switch is
    /// requested when it is more urgent than the running task. Nothing
    /// happens unless the task is blocked and in the blocked list.
    pub fn resume(k: &mut Kernel, tid: usize)
        requires
            old(k).wf(),
            tid < TASK_MAX,
        ensures
            final(k).wf(),
            ({
                let t = old(k).tcbs@[tid as int];
                if t.status == TaskStatus::Blocked && old(k).blocked_list@.contains(tid) {
                    let tcbs = old(k).tcbs@.update(
                        tid as int,
                        Tcb { status: TaskStatus::Ready, ..t },
                    );
                    &&& final(k).tcbs@ == tcbs
                    &&& final(k).blocked_list@ == remove_first(old(k).blocked_list@, tid)
                    &&& final(k).ready_list@ == ordered_insert(
                        old(k).ready_list@,
                        tid,
                        prio_before(t.priority, tcbs),
                    )
                    &&& final(k).yield_pending == (old(k).yield_pending || (old(k).current is Some
                        && t.priority < tcbs[old(k).current->Some_0 as int].priority))
                    &&& *final(k) == (Kernel {
                        tcbs: final(k).tcbs,
                        ready_list: final(k).ready_list,
                        blocked_list: final(k).blocked_list,
                        yield_pending: final(k).yield_pending,
                        ..*old(k)
                    })
                } else {
                    *final(k) == *old(k)
                }
            }),
    {
        if k.tcbs[tid].status != TaskStatus::Blocked {
            return;
        }
        let in_blocked_list = k.blocked_list.contains(tid);
        if !in_blocked_list {
            return;
        }
        proof {
            lemma_remove_first_valid(k.blocked_list@, tid);
        }
        k.blocked_list.remove(tid);
        k.tcbs[tid].status = TaskStatus::Ready;
        let priority = k.tcbs[tid].priority;
        let _ = insert_by_priority(&mut k.ready_list, &k.tcbs, tid, priority);
        match k.current {
            Some(c) => {
                if priority < k.tcbs[c].priority {
                    k.yield_pending = true;
                }
            },
            None => {},
        }
    }

    /// Terminates a live task: it leaves the ready, sleeping and blocked
    /// lists, its slot is released and a context switch is requested.
    /// Nothing happens to a task already terminated.
    pub fn terminate(k: &mut Kernel, tid: usize)
        requires
            old(k).wf(),
            tid < TASK_MAX,
        ensures
            final(k).wf(),
            terminated(*old(k), *final(k), tid),
    {
        if k.tcbs[tid].status == TaskStatus::Terminated {
            return;
        }
        proof {
            lemma_remove_first_valid(k.ready_list@, tid);
            lemma_remove_first_valid(k.sleeping_list@, tid);
            lemma_remove_first_valid(k.blocked_list@, tid);
        }
        k.ready_list.remove(tid);
        k.sleeping_list.remove(tid);
        k.blocked_list.remove(tid);
        k.free_tid(tid);
        k.yield_pending = true;
    }

    /// Puts the running task to sleep for `ticks` ticks: its wake-up time is
    /// the current tick plus `ticks` (wrapping), it is blocked, leaves the
    /// ready list, joins the sleeping list ordered by wake-up time, and a
    /// context switch is requested. A delay of 0 does nothing.
    pub fn delay(k: &mut Kernel, ticks: u32)
        requires
            old(k).wf(),
            ticks != 0 ==> old(k).current is Some,
        ensures
            final(k).wf(),
            ticks == 0 ==> *final(k) == *old(k),
            ticks != 0 ==> ({
                let c = old(k).current->Some_0;
                let wake = wrapping_add(old(k).os_ticks, ticks);
                let tcbs = old(k).tcbs@.update(
                    c as int,
                    Tcb {
                        wake_point: wake,
                        sleep_start: old(k).os_ticks,
                        status: TaskStatus::Blocked,
                        ..old(k).tcbs@[c as int]
                    },
                );
                &&& final(k).tcbs@ == tcbs
                &&& final(k).ready_list@ == remove_first(old(k).ready_list@, c)
                &&& final(k).sleeping_list@ == ordered_insert(
                    old(k).sleeping_list@,
                    c,
                    wake_before(wake, tcbs),
                )
                &&& *final(k) == (Kernel {
                    tcbs: final(k).tcbs,
                    ready_list: final(k).ready_list,
                    sleeping_list: final(k).sleeping_list,
                    yield_pending: true,
                    ..*old(k)
                })
            }),
    {
        if ticks == 0 {
            return;
        }
        let c = match k.current {
            Some(c) => c,
            None => { return; },
        };
        let cr_tid = k.tcbs[c].tid;
        let wake_time = k.os_ticks.wrapping_add(ticks);
        k.tcbs[cr_tid].wake_point = wake_time;
        k.tcbs[cr_tid].sleep_start = k.os_ticks;
        k.tcbs[cr_tid].status = TaskStatus::Blocked;
        proof {
            lemma_remove_first_valid(k.ready_list@, cr_tid);
        }
        k.ready_list.remove(cr_tid);
        let _ = insert_by_wake_point(&mut k.sleeping_list, &k.tcbs, cr_tid, wake_time);
        k.yield_pending = true;
    }

    /// Ends the running task: it leaves the ready list, its slot is released
    /// and a context switch is requested.
    pub fn exit_current(k: &mut Kernel)
        requires
            old(k).wf(),
            old(k).current is Some,
        ensures
            final(k).wf(),
            ({
                let c = old(k).current->Some_0;
                &&& final(k).ready_list@ == remove_first(old(k).ready_list@, c)
                &&& final(k).tid_bitmap == old(k).tid_bitmap & !(1u32 << (c as u32))
                &&& final(k).tcbs@ == old(k).tcbs@.update(
                    c as int,
                    Tcb { status: TaskStatus::Terminated, ..old(k).tcbs@[c as int] },
                )
                &&& *final(k) == (Kernel {
                    tcbs: final(k).tcbs,
                    ready_list: final(k).ready_list,
                    tid_bitmap: final(k).tid_bitmap,
                    yield_pending: true,
                    ..*old(k)
                })
            }),
    {
        let c = match k.current {
            Some(c) => c,
            None => { return; },
        };
        let cr_tid = k.tcbs[c].tid;
        proof {
            lemma_remove_first_valid(k.ready_list@, cr_tid);
        }
        k.ready_list.remove(cr_tid);
        k.free_tid(cr_tid);
        k.yield_pending = true;
    }
}

/// A terminated task is gone for good: it is in none of the kernel's ready,
/// sleeping or blocked lists, its slot reads free and its block terminated,
/// so no later tick wakes it (waking sleepers at any tick never queues it).
/// This holds when each list names the task at most once.
pub proof fn law_terminate_unlists(pre: Kernel, post: Kernel, tid: usize, now: u32)
    requires
        pre.wf(),
        tid < TASK_MAX,
        pre.tcbs@[tid as int].status != TaskStatus::Terminated,
        pre.ready_list@.no_duplicates(),
        pre.sleeping_list@.no_duplicates(),
        pre.blocked_list@.no_duplicates(),
        terminated(pre, post, tid),
    ensures
        !post.ready_list@.contains(tid),
        !post.sleeping_list@.contains(tid),
        !post.blocked_list@.contains(tid),
        post.tcbs@[tid as int].status == TaskStatus::Terminated,
        !tid_used(post.tid_bitmap, tid as int),
        !wake_scan(post.ready_list@, post.sleeping_list@, post.tcbs@, now).0.contains(tid),
{
    lemma_remove_first_gone(pre.ready_list@, tid);
    lemma_remove_first_gone(pre.sleeping_list@, tid);
    lemma_remove_first_gone(pre.blocked_list@, tid);
    lemma_wake_scan_members(post.ready_list@, post.sleeping_list@, post.tcbs@, now, tid);
    let bm = pre.tid_bitmap;
    let t = tid as u32;
    let nb = bm & !(1u32 << t);
    assert(t < 32 ==> (nb >> t) & 1u32 != 1u32) by (bit_vector)
        requires
            nb == bm & !(1u32 << t),
    ;
}

} // verus!
