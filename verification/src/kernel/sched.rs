//! The scheduler: tick handling, waking sleepers and choosing the next task.

use vstd::prelude::*;
use vstd::wrapping::u32_specs::{wrapping_add, wrapping_sub};
use crate::config::{PRI_MIN, TASK_MAX, TIME_SLICE};
use crate::kernel::global::{
    Kernel, ids_valid, insert_by_priority, ordered_insert, prio_before, lemma_remove_first_valid,
    sorted_by_priority, law_priority_insert_sorted, lemma_ordered_insert_valid,
};
use crate::kernel::list::{remove_first, first_index, lemma_first_index};
use crate::kernel::tcb::{Tcb, TaskStatus};
use crate::kernel::task::created;

verus! {

/// A sleeping task as it wakes: ready, with no wake-up time.
pub open spec fn woken(t: Tcb) -> Tcb {
    Tcb { status: TaskStatus::Ready, wake_point: 0, ..t }
}

/// Walks the sleeping ids `rest` in order: each task whose wake-up time has
/// come (see [`sleep_due`]) wakes and is queued into `ready` by priority;
/// the others stay asleep. Gives the new ready list, the ids still asleep
/// and the new control blocks.
pub open spec fn wake_scan(ready: Seq<usize>, rest: Seq<usize>, tcbs: Seq<Tcb>, now: u32) -> (Seq<
    usize,
>, Seq<usize>, Seq<Tcb>)
    decreases rest.len(),
{
    if rest.len() == 0 {
        (ready, Seq::empty(), tcbs)
    } else {
        let t = rest[0];
        if sleep_due(now, tcbs[t as int]) {
            let tcbs2 = tcbs.update(t as int, woken(tcbs[t as int]));
            let ready2 = ordered_insert(ready, t, prio_before(tcbs2[t as int].priority, tcbs2));
            wake_scan(ready2, rest.drop_first(), tcbs2, now)
        } else {
            let r = wake_scan(ready, rest.drop_first(), tcbs, now);
            (r.0, seq![t] + r.1, r.2)
        }
    }
}

/// The running task `c` after a scheduling point: a terminated or blocked
/// task leaves the ready list; a task whose slice ran out or that was
/// running gets a fresh slice, becomes ready and is requeued by priority.
pub open spec fn requeue_current(ready: Seq<usize>, tcbs: Seq<Tcb>, c: usize) -> (Seq<usize>, Seq<
    Tcb,
>) {
    let t = tcbs[c as int];
    if t.status == TaskStatus::Terminated || t.status == TaskStatus::Blocked {
        (remove_first(ready, c), tcbs)
    } else if t.time_slice == 0 || t.status == TaskStatus::Running {
        let tcbs2 = tcbs.update(
            c as int,
            Tcb { time_slice: TIME_SLICE, status: TaskStatus::Ready, ..t },
        );
        (ordered_insert(remove_first(ready, c), c, prio_before(t.priority, tcbs2)), tcbs2)
    } else {
        (ready, tcbs)
    }
}

/// Switching from `c` to the front `next` of the ready list: a running `c`
/// becomes ready and `next` runs. Nothing changes when `next` is `c`.
pub open spec fn dispatch(tcbs: Seq<Tcb>, c: usize, next: usize) -> Seq<Tcb> {
    if next == c {
        tcbs
    } else {
        let t1 = if tcbs[c as int].status == TaskStatus::Running {
            tcbs.update(c as int, Tcb { status: TaskStatus::Ready, ..tcbs[c as int] })
        } else {
            tcbs
        };
        t1.update(next as int, Tcb { status: TaskStatus::Running, ..t1[next as int] })
    }
}

/// Whether a sleeping task is due at tick `now`: the ticks elapsed since it
/// went to sleep (wrapping) have reached the length of its delay.
pub open spec fn sleep_due(now: u32, t: Tcb) -> bool {
    wrapping_sub(now, t.sleep_start) >= wrapping_sub(t.wake_point, t.sleep_start)
}

/// A task that goes to sleep at tick `t0` for `d` ticks (wake-up tick
/// `t0 + d`, wrapping) is due exactly once `d` ticks have elapsed, for every
/// delay, also when the delay crosses the wrap of the tick counter.
pub proof fn law_delay_wakes_after_elapsed(t: Tcb, t0: u32, d: u32, now: u32)
    ensures
        sleep_due(now, Tcb { sleep_start: t0, wake_point: wrapping_add(t0, d), ..t })
            <==> wrapping_sub(now, t0) >= d,
{
}

/// Waking sleepers adds to the ready list only ids from the sleeping ids.
pub proof fn lemma_wake_scan_members(ready: Seq<usize>, rest: Seq<usize>, tcbs: Seq<Tcb>, now: u32, x: usize)
    ensures
        wake_scan(ready, rest, tcbs, now).0.contains(x) ==> ready.contains(x) || rest.contains(x),
    decreases rest.len(),
{
    if rest.len() > 0 {
        let t = rest[0];
        if sleep_due(now, tcbs[t as int]) {
            let tcbs2 = tcbs.update(t as int, woken(tcbs[t as int]));
            let b = prio_before(tcbs2[t as int].priority, tcbs2);
            lemma_wake_scan_members(ordered_insert(ready, t, b), rest.drop_first(), tcbs2, now, x);
            crate::kernel::global::lemma_ordered_insert_members(ready, t, b, x);
        } else {
            lemma_wake_scan_members(ready, rest.drop_first(), tcbs, now, x);
        }
        if rest.drop_first().contains(x) {
            let j = choose|j: int| 0 <= j < rest.drop_first().len() && rest.drop_first()[j] == x;
            assert(rest[j + 1] == x);
        }
        if x == t {
            assert(rest[0] == x);
        }
    }
}

/// Control blocks `t2` give every id of `s` the priority that `t1` gives it.
pub open spec fn same_priorities(s: Seq<usize>, t1: Seq<Tcb>, t2: Seq<Tcb>) -> bool {
    forall|i: int| 0 <= i < s.len() ==> t1[#[trigger] s[i] as int].priority == t2[s[i] as int].priority
}

proof fn lemma_sorted_same_prio(s: Seq<usize>, t1: Seq<Tcb>, t2: Seq<Tcb>)
    requires
        sorted_by_priority(s, t1),
        same_priorities(s, t1, t2),
    ensures
        sorted_by_priority(s, t2),
{
    assert forall|i: int, j: int| 0 <= i < j < s.len() implies t2[#[trigger] s[i] as int].priority
        <= t2[#[trigger] s[j] as int].priority by {
        assert(t1[s[i] as int].priority <= t1[s[j] as int].priority);
    }
}

proof fn lemma_sorted_remove_first(s: Seq<usize>, x: usize, t: Seq<Tcb>)
    requires
        sorted_by_priority(s, t),
    ensures
        sorted_by_priority(remove_first(s, x), t),
{
    lemma_first_index(s, x);
    if s.contains(x) {
        let fi = first_index(s, x);
        let r = remove_first(s, x);
        assert forall|i: int, j: int| 0 <= i < j < r.len() implies t[#[trigger] r[i] as int].priority
            <= t[#[trigger] r[j] as int].priority by {
            let i0 = if i < fi { i } else { i + 1 };
            let j0 = if j < fi { j } else { j + 1 };
            assert(r[i] == s[i0]);
            assert(r[j] == s[j0]);
            assert(t[s[i0] as int].priority <= t[s[j0] as int].priority);
        }
    }
}

proof fn lemma_insert_keeps_sorted(s: Seq<usize>, tid: usize, t: Seq<Tcb>)
    requires
        sorted_by_priority(s, t),
    ensures
        sorted_by_priority(ordered_insert(s, tid, prio_before(t[tid as int].priority, t)), t),
{
    if s.len() < TASK_MAX {
        law_priority_insert_sorted(s, tid, t);
    }
}

proof fn lemma_wake_scan_sorted(ready: Seq<usize>, rest: Seq<usize>, tcbs: Seq<Tcb>, now: u32)
    requires
        sorted_by_priority(ready, tcbs),
        ids_valid(ready),
        ids_valid(rest),
        tcbs.len() == TASK_MAX,
    ensures
        ({
            let r = wake_scan(ready, rest, tcbs, now);
            &&& sorted_by_priority(r.0, r.2)
            &&& ids_valid(r.0)
            &&& r.2.len() == TASK_MAX
            &&& forall|i: int| 0 <= i < TASK_MAX ==> (#[trigger] r.2[i]).priority == tcbs[i].priority
        }),
    decreases rest.len(),
{
    if rest.len() > 0 {
        let t = rest[0];
        assert(t < TASK_MAX);
        assert(ids_valid(rest.drop_first())) by {
            assert forall|i: int| 0 <= i < rest.drop_first().len() implies #[trigger] rest.drop_first()[i]
                < TASK_MAX by {
                assert(rest.drop_first()[i] == rest[i + 1]);
            }
        }
        if sleep_due(now, tcbs[t as int]) {
            let tcbs2 = tcbs.update(t as int, woken(tcbs[t as int]));
            assert(same_priorities(ready, tcbs, tcbs2));
            lemma_sorted_same_prio(ready, tcbs, tcbs2);
            lemma_insert_keeps_sorted(ready, t, tcbs2);
            lemma_ordered_insert_valid(ready, t, prio_before(tcbs2[t as int].priority, tcbs2));
            lemma_wake_scan_sorted(
                ordered_insert(ready, t, prio_before(tcbs2[t as int].priority, tcbs2)),
                rest.drop_first(),
                tcbs2,
                now,
            );
        } else {
            lemma_wake_scan_sorted(ready, rest.drop_first(), tcbs, now);
        }
    }
}

/// Scheduling runs the most urgent ready task. When the ready list is in
/// order of urgency, it stays so once the due sleepers are woken and the
/// running task `c` is requeued, and the task switched to (the front) is at
/// least as urgent as every task in the ready list.
pub proof fn law_schedule_most_urgent(
    ready: Seq<usize>,
    sleeping: Seq<usize>,
    tcbs: Seq<Tcb>,
    now: u32,
    c: usize,
)
    requires
        sorted_by_priority(ready, tcbs),
        ids_valid(ready),
        ids_valid(sleeping),
        tcbs.len() == TASK_MAX,
        c < TASK_MAX,
    ensures
        ({
            let w = wake_scan(ready, sleeping, tcbs, now);
            let q = requeue_current(w.0, w.2, c);
            let d = dispatch(q.1, c, q.0[0]);
            &&& sorted_by_priority(q.0, q.1)
            &&& q.0.len() > 0 ==> forall|j: int|
                0 <= j < q.0.len() ==> d[q.0[0] as int].priority <= d[#[trigger] q.0[j] as int].priority
        }),
{
    lemma_wake_scan_sorted(ready, sleeping, tcbs, now);
    let w = wake_scan(ready, sleeping, tcbs, now);
    let t = w.2[c as int];
    lemma_remove_first_valid(w.0, c);
    if t.status == TaskStatus::Terminated || t.status == TaskStatus::Blocked {
        lemma_sorted_remove_first(w.0, c, w.2);
    } else if t.time_slice == 0 || t.status == TaskStatus::Running {
        let tcbs2 = w.2.update(c as int, Tcb { time_slice: TIME_SLICE, status: TaskStatus::Ready, ..t });
        lemma_sorted_remove_first(w.0, c, w.2);
        let r1 = remove_first(w.0, c);
        assert(same_priorities(r1, w.2, tcbs2));
        lemma_sorted_same_prio(r1, w.2, tcbs2);
        lemma_insert_keeps_sorted(r1, c, tcbs2);
        lemma_ordered_insert_valid(r1, c, prio_before(tcbs2[c as int].priority, tcbs2));
    }
    let q = requeue_current(w.0, w.2, c);
    if q.0.len() > 0 {
        let d = dispatch(q.1, c, q.0[0]);
        assert forall|j: int| 0 <= j < q.0.len() implies d[q.0[0] as int].priority
            <= d[#[trigger] q.0[j] as int].priority by {
            assert(q.0[0] < TASK_MAX && q.0[j] < TASK_MAX);
            if j > 0 {
                assert(q.1[q.0[0] as int].priority <= q.1[q.0[j] as int].priority);
            }
        }
    }
}

impl Kernel {
    /// Wakes every sleeping task whose wake-up time has come, in the order
    /// of the sleeping list, and queues it into the ready list by priority.
    pub fn wake_up_sleepers(&mut self)
        requires
            old(self).wf(),
        ensures
            final(self).wf(),
            ({
                let r = wake_scan(
                    old(self).ready_list@,
                    old(self).sleeping_list@,
                    old(self).tcbs@,
                    old(self).os_ticks,
                );
                &&& final(self).ready_list@ == r.0
                &&& final(self).sleeping_list@ == r.1
                &&& final(self).tcbs@ == r.2
            }),
            final(self).blocked_list@ == old(self).blocked_list@,
            final(self).stacks == old(self).stacks,
            final(self).stack_base == old(self).stack_base,
            final(self).os_ticks == old(self).os_ticks,
            final(self).tid_bitmap == old(self).tid_bitmap,
            final(self).current == old(self).current,
            final(self).sched_ready == old(self).sched_ready,
            final(self).yield_pending == old(self).yield_pending,
            final(self).yield_from_isr == old(self).yield_from_isr,
    {
        let now = self.os_ticks;
        let ghost target = wake_scan(
            old(self).ready_list@,
            old(self).sleeping_list@,
            old(self).tcbs@,
            now,
        );
        proof {
            let r = wake_scan(self.ready_list@, self.sleeping_list@, self.tcbs@, now);
            assert(self.sleeping_list@.skip(0) =~= self.sleeping_list@);
            assert(self.sleeping_list@.take(0) + r.1 =~= r.1);
        }
        let mut i: usize = 0;
        while i < self.sleeping_list.len()
            invariant
                self.wf(),
                now == self.os_ticks,
                i <= self.sleeping_list@.len(),
                forall|j: int|
                    0 <= j < i ==> !sleep_due(now, self.tcbs@[#[trigger] self.sleeping_list@[j] as int]),
                ({
                    let r = wake_scan(
                        self.ready_list@,
                        self.sleeping_list@.skip(i as int),
                        self.tcbs@,
                        now,
                    );
                    target == (r.0, self.sleeping_list@.take(i as int) + r.1, r.2)
                }),
                self.blocked_list@ == old(self).blocked_list@,
                self.stacks == old(self).stacks,
                self.stack_base == old(self).stack_base,
                self.tid_bitmap == old(self).tid_bitmap,
                self.current == old(self).current,
                self.sched_ready == old(self).sched_ready,
                self.yield_pending == old(self).yield_pending,
                self.yield_from_isr == old(self).yield_from_isr,
            decreases self.sleeping_list@.len() - i,
        {
            let tid = self.sleeping_list.get(i);
            let ghost sl = self.sleeping_list@;
            let ghost rd = self.ready_list@;
            let ghost tc = self.tcbs@;
            proof {
                assert(sl.skip(i as int)[0] == tid);
                assert(sl.skip(i as int).drop_first() =~= sl.skip(i + 1));
            }
            if now.wrapping_sub(self.tcbs[tid].sleep_start) >= self.tcbs[tid].wake_point.wrapping_sub(
                self.tcbs[tid].sleep_start,
            ) {
                proof {
                    lemma_first_index(sl, tid);
                    assert(sl.contains(tid)) by {
                        assert(sl[i as int] == tid);
                    }
                    let fi = first_index(sl, tid);
                    if fi < i {
                        assert(!sleep_due(now, self.tcbs@[sl[fi] as int]));
                    }
                    assert(fi == i);
                    lemma_remove_first_valid(sl, tid);
                }
                self.sleeping_list.remove(tid);
                self.tcbs[tid].status = TaskStatus::Ready;
                self.tcbs[tid].wake_point = 0;
                let priority = self.tcbs[tid].priority;
                let _ = insert_by_priority(&mut self.ready_list, &self.tcbs, tid, priority);
                proof {
                    let sl2 = self.sleeping_list@;
                    assert(sl2 =~= sl.remove(i as int));
                    assert(sl2.skip(i as int) =~= sl.skip(i + 1));
                    assert(sl2.take(i as int) =~= sl.take(i as int));
                    assert(self.tcbs@ =~= tc.update(tid as int, woken(tc[tid as int])));
                    assert forall|j: int| 0 <= j < i implies !sleep_due(now, self.tcbs@[#[trigger] sl2[j] as int]) by {
                        assert(sl2[j] == sl[j]);
                        assert(sl[j] != tid);
                    }
                }
            } else {
                proof {
                    let r = wake_scan(rd, sl.skip(i + 1), tc, now);
                    assert(sl.take(i + 1) =~= sl.take(i as int).push(tid));
                    assert(sl.take(i as int) + (seq![tid] + r.1) =~= sl.take(i + 1) + r.1);
                }
                i = i + 1;
            }
        }
        proof {
            assert(self.sleeping_list@.skip(i as int) =~= Seq::<usize>::empty());
            assert(self.sleeping_list@.take(i as int) + Seq::<usize>::empty() =~= self.sleeping_list@);
        }
    }

    /// First half of a scheduling point: wakes the due sleepers and requeues
    /// the running task (see [`requeue_current`]).
    pub fn schedule_prepare(&mut self)
        requires
            old(self).wf(),
            old(self).current is Some,
        ensures
            final(self).wf(),
            ({
                let c = old(self).current->Some_0;
                let w = wake_scan(
                    old(self).ready_list@,
                    old(self).sleeping_list@,
                    old(self).tcbs@,
                    old(self).os_ticks,
                );
                let q = requeue_current(w.0, w.2, c);
                &&& final(self).ready_list@ == q.0
                &&& final(self).sleeping_list@ == w.1
                &&& final(self).tcbs@ == q.1
            }),
            final(self).blocked_list@ == old(self).blocked_list@,
            final(self).stacks == old(self).stacks,
            final(self).stack_base == old(self).stack_base,
            final(self).os_ticks == old(self).os_ticks,
            final(self).tid_bitmap == old(self).tid_bitmap,
            final(self).current == old(self).current,
            final(self).sched_ready == old(self).sched_ready,
            final(self).yield_pending == old(self).yield_pending,
            final(self).yield_from_isr == old(self).yield_from_isr,
    {
        self.wake_up_sleepers();
        let c = match self.current {
            Some(c) => c,
            None => { return; },
        };
        let cr_tid = self.tcbs[c].tid;
        let st = self.tcbs[cr_tid].status;
        let ghost rd = self.ready_list@;
        let ghost tc = self.tcbs@;
        if st == TaskStatus::Terminated || st == TaskStatus::Blocked {
            proof {
                lemma_remove_first_valid(rd, cr_tid);
            }
            self.ready_list.remove(cr_tid);
        } else if self.tcbs[cr_tid].time_slice == 0 || st == TaskStatus::Running {
            self.tcbs[cr_tid].time_slice = TIME_SLICE;
            self.tcbs[cr_tid].status = TaskStatus::Ready;
            proof {
                lemma_remove_first_valid(rd, cr_tid);
            }
            self.ready_list.remove(cr_tid);
            let priority = self.tcbs[cr_tid].priority;
            let _ = insert_by_priority(&mut self.ready_list, &self.tcbs, cr_tid, priority);
            proof {
                assert(self.tcbs@ =~= tc.update(
                    c as int,
                    Tcb { time_slice: TIME_SLICE, status: TaskStatus::Ready, ..tc[c as int] },
                ));
            }
        }
    }

    /// Second half of a scheduling point: switches from the running task to
    /// the front of the ready list (see [`dispatch`]).
    pub fn switch_to_front(&mut self)
        requires
            old(self).wf(),
            old(self).current is Some,
            old(self).ready_list@.len() > 0,
        ensures
            final(self).wf(),
            final(self).tcbs@ == dispatch(
                old(self).tcbs@,
                old(self).current->Some_0,
                old(self).ready_list@[0],
            ),
            *final(self) == (Kernel {
                tcbs: final(self).tcbs,
                current: Some(old(self).ready_list@[0]),
                ..*old(self)
            }),
    {
        let c = match self.current {
            Some(c) => c,
            None => { return; },
        };
        let cr_tid = self.tcbs[c].tid;
        let st_tid = match self.ready_list.front() {
            Some(t) => t,
            None => { return; },
        };
        if st_tid != cr_tid {
            let ghost t2 = self.tcbs@;
            if self.tcbs[cr_tid].status == TaskStatus::Running {
                self.tcbs[cr_tid].status = TaskStatus::Ready;
            }
            self.tcbs[st_tid].status = TaskStatus::Running;
            self.current = Some(st_tid);
            proof {
                assert(self.tcbs@ =~= dispatch(t2, c, st_tid));
            }
        }
    }

    /// Scheduling point: wakes the due sleepers, requeues the running task
    /// (see [`requeue_current`]) and switches to the front of the ready list.
    /// A ready task must remain (the idle task does).
    pub fn next_tcb(&mut self)
        requires
            old(self).wf(),
            old(self).current is Some,
            requeue_current(
                wake_scan(
                    old(self).ready_list@,
                    old(self).sleeping_list@,
                    old(self).tcbs@,
                    old(self).os_ticks,
                ).0,
                wake_scan(
                    old(self).ready_list@,
                    old(self).sleeping_list@,
                    old(self).tcbs@,
                    old(self).os_ticks,
                ).2,
                old(self).current->Some_0,
            ).0.len() > 0,
        ensures
            final(self).wf(),
            ({
                let c = old(self).current->Some_0;
                let w = wake_scan(
                    old(self).ready_list@,
                    old(self).sleeping_list@,
                    old(self).tcbs@,
                    old(self).os_ticks,
                );
                let q = requeue_current(w.0, w.2, c);
                &&& final(self).ready_list@ == q.0
                &&& final(self).sleeping_list@ == w.1
                &&& final(self).tcbs@ == dispatch(q.1, c, q.0[0])
                &&& final(self).current == Some(q.0[0])
            }),
            final(self).blocked_list@ == old(self).blocked_list@,
            final(self).stacks == old(self).stacks,
            final(self).stack_base == old(self).stack_base,
            final(self).os_ticks == old(self).os_ticks,
            final(self).tid_bitmap == old(self).tid_bitmap,
            final(self).sched_ready == old(self).sched_ready,
            final(self).yield_pending == old(self).yield_pending,
            final(self).yield_from_isr == old(self).yield_from_isr,
    {
        self.schedule_prepare();
        self.switch_to_front();
    }

    /// Timer tick: advances the tick counter (wrapping) and consumes one
    /// tick of the running task's slice. Returns 1 when a scheduling point
    /// is due (slice used up, or tasks are sleeping), else 0; does nothing
    /// and returns 0 before the scheduler is launched.
    pub fn systick_tick(&mut self) -> (r: u32)
        requires
            old(self).wf(),
        ensures
            final(self).wf(),
            !old(self).sched_ready ==> r == 0 && *final(self) == *old(self),
            old(self).sched_ready ==> ({
                let c = old(self).current->Some_0;
                let t = old(self).tcbs@[c as int];
                let ts = if t.time_slice > 0 { (t.time_slice - 1) as u32 } else { t.time_slice };
                &&& final(self).os_ticks == wrapping_add(old(self).os_ticks, 1)
                &&& final(self).tcbs@ == old(self).tcbs@.update(c as int, Tcb { time_slice: ts, ..t })
                &&& r == (if ts == 0 || old(self).sleeping_list@.len() > 0 { 1u32 } else { 0u32 })
                &&& *final(self) == (Kernel {
                    tcbs: final(self).tcbs,
                    os_ticks: final(self).os_ticks,
                    ..*old(self)
                })
            }),
    {
        if !self.sched_ready {
            return 0;
        }
        self.os_ticks = self.os_ticks.wrapping_add(1);
        let c = match self.current {
            Some(c) => c,
            None => { return 0; },
        };
        let cr_tid = self.tcbs[c].tid;
        if self.tcbs[cr_tid].time_slice > 0 {
            self.tcbs[cr_tid].time_slice = self.tcbs[cr_tid].time_slice - 1;
        }
        if self.tcbs[cr_tid].time_slice == 0 || !self.sleeping_list.is_empty() {
            1
        } else {
            0
        }
    }
}

/// Scheduler entry points.
pub struct Scheduler;

impl Scheduler {
    /// Launches the scheduler: creates the idle task (lowest priority, named
    /// "idle", entering at `idle_entry` and returning into `exit`), then runs
    /// the front of the ready list. Returns the slot of the first task to
    /// run; fails when the idle task cannot be created.
    pub fn launch(k: &mut Kernel, idle_entry: u32, exit: u32) -> (r: Result<usize, &'static str>)
        requires
            old(k).wf(),
        ensures
            final(k).wf(),
            crate::kernel::task::pool_full(old(k).tid_bitmap) ==> r == Err::<usize, &'static str>(
                "Failed to create idle task",
            ) && *final(k) == *old(k),
            !crate::kernel::task::pool_full(old(k).tid_bitmap) ==> r is Ok,
            r is Ok ==> {
                let first = r->Ok_0;
                &&& final(k).sched_ready
                &&& final(k).current == Some(first)
                &&& final(k).ready_list@.len() > 0
                &&& first == final(k).ready_list@[0]
                &&& final(k).tcbs@[first as int].status == TaskStatus::Running
                &&& exists|mid: Kernel, t: usize|
                    {
                        &&& #[trigger] created(
                            *old(k),
                            mid,
                            PRI_MIN,
                            "idle",
                            idle_entry,
                            exit,
                            Ok::<usize, &'static str>(t),
                        )
                        &&& final(k).tcbs@ == mid.tcbs@.update(
                            first as int,
                            Tcb { status: TaskStatus::Running, ..mid.tcbs@[first as int] },
                        )
                        &&& *final(k) == (Kernel {
                            tcbs: final(k).tcbs,
                            current: Some(first),
                            sched_ready: true,
                            ..mid
                        })
                    }
            },
    {
        let t = match crate::kernel::task::Task::create(k, PRI_MIN, "idle", idle_entry, exit) {
            Ok(t) => t,
            Err(_) => { return Err("Failed to create idle task"); },
        };
        let ghost mid = *k;
        let first_tid = match k.ready_list.front() {
            Some(t) => t,
            None => { return Err("OS Launch Failed: No ready task!"); },
        };
        k.tcbs[first_tid].status = TaskStatus::Running;
        k.current = Some(first_tid);
        k.sched_ready = true;
        proof {
            assert(created(*old(k), mid, PRI_MIN, "idle", idle_entry, exit, Ok::<usize, &'static str>(t)));
        }
        Ok(first_tid)
    }
}

} // verus!
