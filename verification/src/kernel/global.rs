//! Global kernel state: task pool, stacks, scheduling queues, tick counter
//! and the task-id allocator.

use vstd::prelude::*;
use crate::config::{PAGE_SIZE, PAGE_SIZE_WORDS, PRI_INV, PRI_MIN, TASK_MAX, TIME_SLICE};
use crate::kernel::list::{TaskList, remove_first};
use crate::kernel::tcb::{Tcb, TaskStatus, empty_tcb};

verus! {

/// Every id in `s` names a task slot.
pub open spec fn ids_valid(s: Seq<usize>) -> bool {
    forall|i: int| 0 <= i < s.len() ==> #[trigger] s[i] < TASK_MAX
}

/// Whether slot `t` is marked used in the id bitmap `bm`.
pub open spec fn tid_used(bm: u32, t: int) -> bool {
    (bm >> (t as u32)) & 1u32 == 1u32
}

/// Index of the first id of `s` for which `before` holds, or `s.len()`.
pub open spec fn first_true(s: Seq<usize>, before: spec_fn(usize) -> bool) -> int
    decreases s.len(),
{
    if s.len() == 0 {
        0
    } else if before(s[0]) {
        0
    } else {
        1 + first_true(s.drop_first(), before)
    }
}

/// `s` with `tid` inserted before the first id for which `before` holds;
/// unchanged when the list is full.
pub open spec fn ordered_insert(s: Seq<usize>, tid: usize, before: spec_fn(usize) -> bool) -> Seq<
    usize,
> {
    if s.len() >= TASK_MAX {
        s
    } else {
        s.insert(first_true(s, before), tid)
    }
}

/// Ordering key of the ready list and of wait queues: ahead of every task
/// of strictly lower urgency (numerically greater priority).
pub open spec fn prio_before(p: u8, tcbs: Seq<Tcb>) -> spec_fn(usize) -> bool {
    |t: usize| p < tcbs[t as int].priority
}

/// Ordering key of the sleeping list: ahead of every task waking strictly later.
pub open spec fn wake_before(w: u32, tcbs: Seq<Tcb>) -> spec_fn(usize) -> bool {
    |t: usize| w < tcbs[t as int].wake_point
}

pub proof fn lemma_first_true(s: Seq<usize>, before: spec_fn(usize) -> bool, pos: int)
    requires
        0 <= pos <= s.len(),
        forall|j: int| 0 <= j < pos ==> !before(#[trigger] s[j]),
        pos < s.len() ==> before(s[pos]),
    ensures
        pos == first_true(s, before),
    decreases s.len(),
{
    if s.len() > 0 && pos > 0 {
        assert(!before(s[0]));
        assert forall|j: int| 0 <= j < pos - 1 implies !before(#[trigger] s.drop_first()[j]) by {
            assert(s.drop_first()[j] == s[j + 1]);
        }
        lemma_first_true(s.drop_first(), before, pos - 1);
    }
}

pub proof fn lemma_first_true_bound(s: Seq<usize>, before: spec_fn(usize) -> bool)
    ensures
        0 <= first_true(s, before) <= s.len(),
    decreases s.len(),
{
    if s.len() > 0 && !before(s[0]) {
        lemma_first_true_bound(s.drop_first(), before);
    }
}

/// What `first_true` finds: no earlier id satisfies `before`, and the id at
/// the position found (if any) does.
pub proof fn lemma_first_true_props(s: Seq<usize>, before: spec_fn(usize) -> bool)
    ensures
        0 <= first_true(s, before) <= s.len(),
        forall|j: int| 0 <= j < first_true(s, before) ==> !before(#[trigger] s[j]),
        first_true(s, before) < s.len() ==> before(s[first_true(s, before)]),
    decreases s.len(),
{
    if s.len() > 0 && !before(s[0]) {
        let t = s.drop_first();
        lemma_first_true_props(t, before);
        assert forall|j: int| 0 <= j < first_true(s, before) implies !before(#[trigger] s[j]) by {
            if j > 0 {
                assert(s[j] == t[j - 1]);
            }
        }
    }
}

/// The ids of `s` are in order of urgency: no task is more urgent than one
/// ahead of it.
pub open spec fn sorted_by_priority(s: Seq<usize>, tcbs: Seq<Tcb>) -> bool {
    forall|i: int, j: int|
        0 <= i < j < s.len() ==> tcbs[#[trigger] s[i] as int].priority <= tcbs[#[trigger] s[j] as int].priority
}

/// Queueing a task by its priority keeps a list in order of urgency, and the
/// task goes behind every task of equal or greater urgency (so tasks of
/// equal priority take turns in arrival order).
pub proof fn law_priority_insert_sorted(s: Seq<usize>, tid: usize, tcbs: Seq<Tcb>)
    requires
        sorted_by_priority(s, tcbs),
        s.len() < TASK_MAX,
    ensures
        ({
            let p = tcbs[tid as int].priority;
            let r = ordered_insert(s, tid, prio_before(p, tcbs));
            let pos = first_true(s, prio_before(p, tcbs));
            &&& sorted_by_priority(r, tcbs)
            &&& r[pos] == tid
            &&& forall|j: int| 0 <= j < pos ==> tcbs[#[trigger] r[j] as int].priority <= p
            &&& forall|j: int| pos < j < r.len() ==> p < tcbs[#[trigger] r[j] as int].priority
        }),
{
    let p = tcbs[tid as int].priority;
    let before = prio_before(p, tcbs);
    lemma_first_true_props(s, before);
    let pos = first_true(s, before);
    let r = ordered_insert(s, tid, before);
    assert(r == s.insert(pos, tid));
    assert forall|j: int| 0 <= j < pos implies tcbs[#[trigger] r[j] as int].priority <= p by {
        assert(r[j] == s[j]);
        assert(!before(s[j]));
    }
    assert forall|j: int| pos < j < r.len() implies p < tcbs[#[trigger] r[j] as int].priority by {
        assert(r[j] == s[j - 1]);
        assert(before(s[pos]));
        if j - 1 > pos {
            assert(tcbs[s[pos] as int].priority <= tcbs[s[j - 1] as int].priority);
        }
    }
    assert forall|i: int, j: int| 0 <= i < j < r.len() implies tcbs[#[trigger] r[i] as int].priority
        <= tcbs[#[trigger] r[j] as int].priority by {
        if i < pos && j < pos {
            assert(r[i] == s[i] && r[j] == s[j]);
        } else if i > pos && j > pos {
            assert(r[i] == s[i - 1] && r[j] == s[j - 1]);
        } else if i < pos && j > pos {
            assert(r[i] == s[i] && r[j] == s[j - 1]);
            assert(tcbs[r[i] as int].priority <= p);
            assert(p < tcbs[r[j] as int].priority);
        } else if i == pos {
            assert(p < tcbs[r[j] as int].priority);
        } else {
            assert(tcbs[r[i] as int].priority <= p);
        }
    }
}

/// Inserting valid ids keeps a list's ids valid.
pub proof fn lemma_ordered_insert_valid(s: Seq<usize>, tid: usize, before: spec_fn(usize) -> bool)
    requires
        ids_valid(s),
        tid < TASK_MAX,
    ensures
        ids_valid(ordered_insert(s, tid, before)),
        ordered_insert(s, tid, before).len() <= TASK_MAX || s.len() > TASK_MAX,
{
    lemma_first_true_bound(s, before);
    let r = ordered_insert(s, tid, before);
    if s.len() < TASK_MAX {
        let p = first_true(s, before);
        assert forall|i: int| 0 <= i < r.len() implies #[trigger] r[i] < TASK_MAX by {
            if i < p {
                assert(r[i] == s[i]);
            } else if i > p {
                assert(r[i] == s[i - 1]);
            }
        }
    }
}

/// Inserting `tid` adds `tid` and nothing else.
pub proof fn lemma_ordered_insert_members(s: Seq<usize>, tid: usize, before: spec_fn(usize) -> bool, x: usize)
    ensures
        ordered_insert(s, tid, before).contains(x) ==> s.contains(x) || x == tid,
{
    lemma_first_true_bound(s, before);
    let r = ordered_insert(s, tid, before);
    if r.contains(x) && s.len() < TASK_MAX {
        let p = first_true(s, before);
        let i = choose|i: int| 0 <= i < r.len() && r[i] == x;
        if i < p {
            assert(r[i] == s[i]);
        } else if i > p {
            assert(r[i] == s[i - 1]);
        }
    }
}

/// Removing an id keeps a list's ids valid.
pub proof fn lemma_remove_first_valid(s: Seq<usize>, tid: usize)
    requires
        ids_valid(s),
    ensures
        ids_valid(remove_first(s, tid)),
        remove_first(s, tid).len() <= s.len(),
{
    crate::kernel::list::lemma_first_index(s, tid);
    let r = remove_first(s, tid);
    if s.contains(tid) {
        let p = crate::kernel::list::first_index(s, tid);
        assert forall|i: int| 0 <= i < r.len() implies #[trigger] r[i] < TASK_MAX by {
            if i < p {
                assert(r[i] == s[i]);
            } else {
                assert(r[i] == s[i + 1]);
            }
        }
    }
}

/// Inserts `tid` into `list` ahead of every task of lower urgency than `prio`.
pub fn insert_by_priority(list: &mut TaskList, tcbs: &Vec<Tcb>, tid: usize, prio: u8) -> (r: Result<
    (),
    usize,
>)
    requires
        old(list).wf(),
        ids_valid(old(list)@),
        tcbs@.len() == TASK_MAX,
        tid < TASK_MAX,
    ensures
        final(list).wf(),
        ids_valid(final(list)@),
        final(list)@ == ordered_insert(old(list)@, tid, prio_before(prio, tcbs@)),
        r == (if old(list)@.len() < TASK_MAX { Ok(()) } else { Err(tid) }),
{
    let ghost before = prio_before(prio, tcbs@);
    let ghost s = list@;
    proof {
        assert forall|j: int| 0 <= j < s.len() implies (#[trigger] s[j]) < TASK_MAX by {}
    }
    let f = |t: usize| -> (b: bool)
        requires
            t < TASK_MAX,
            tcbs@.len() == TASK_MAX,
        ensures
            b == before(t),
        { prio < tcbs[t].priority };
    let r = list.insert_in_order(tid, f);
    proof {
        if s.len() < TASK_MAX {
            assert(exists|pos: int|
                0 <= pos <= s.len() && list@ == s.insert(pos, tid) && (forall|j: int|
                    0 <= j < pos ==> f.ensures((s[j],), false)) && (pos < s.len() ==> f.ensures(
                    (s[pos],),
                    true,
                )));
            let pos = choose|pos: int|
                0 <= pos <= s.len() && list@ == s.insert(pos, tid) && (forall|j: int|
                    0 <= j < pos ==> f.ensures((s[j],), false)) && (pos < s.len() ==> f.ensures(
                    (s[pos],),
                    true,
                ));
            assert forall|j: int| 0 <= j < pos implies !before(#[trigger] s[j]) by {
                assert(f.ensures((s[j],), false));
            }
            if pos < s.len() {
                assert(f.ensures((s[pos],), true));
            }
            lemma_first_true(s, before, pos);
        }
        lemma_ordered_insert_valid(s, tid, before);
    }
    r
}

/// Inserts `tid` into `list` ahead of every task waking strictly after `wake`.
pub fn insert_by_wake_point(list: &mut TaskList, tcbs: &Vec<Tcb>, tid: usize, wake: u32) -> (r: Result<
    (),
    usize,
>)
    requires
        old(list).wf(),
        ids_valid(old(list)@),
        tcbs@.len() == TASK_MAX,
        tid < TASK_MAX,
    ensures
        final(list).wf(),
        ids_valid(final(list)@),
        final(list)@ == ordered_insert(old(list)@, tid, wake_before(wake, tcbs@)),
        r == (if old(list)@.len() < TASK_MAX { Ok(()) } else { Err(tid) }),
{
    let ghost before = wake_before(wake, tcbs@);
    let ghost s = list@;
    let f = |t: usize| -> (b: bool)
        requires
            t < TASK_MAX,
            tcbs@.len() == TASK_MAX,
        ensures
            b == before(t),
        { wake < tcbs[t].wake_point };
    let r = list.insert_in_order(tid, f);
    proof {
        if s.len() < TASK_MAX {
            let pos = choose|pos: int|
                0 <= pos <= s.len() && list@ == s.insert(pos, tid) && (forall|j: int|
                    0 <= j < pos ==> f.ensures((s[j],), false)) && (pos < s.len() ==> f.ensures(
                    (s[pos],),
                    true,
                ));
            assert forall|j: int| 0 <= j < pos implies !before(#[trigger] s[j]) by {
                assert(f.ensures((s[j],), false));
            }
            if pos < s.len() {
                assert(f.ensures((s[pos],), true));
            }
            lemma_first_true(s, before, pos);
        }
        lemma_ordered_insert_valid(s, tid, before);
    }
    r
}

/// The kernel's global state.
pub struct Kernel {
    /// Task control blocks, one per slot.
    pub tcbs: Vec<Tcb>,
    /// Static stack pool, one stack per slot.
    pub stacks: Vec<Vec<u32>>,
    /// Address of the first word of the stack pool.
    pub stack_base: u32,
    /// Tasks ready to run, most urgent first.
    pub ready_list: TaskList,
    /// Tasks blocked by `Task::block`.
    pub blocked_list: TaskList,
    /// Tasks waiting for a wake-up time, earliest first.
    pub sleeping_list: TaskList,
    /// Ticks since the scheduler started (wrapping).
    pub os_ticks: u32,
    /// Bit `t` is set while slot `t` is allocated.
    pub tid_bitmap: u32,
    /// Slot of the running task, if any.
    pub current: Option<usize>,
    /// Whether the scheduler has been launched.
    pub sched_ready: bool,
    /// Whether a context switch is due (the running task must yield).
    pub yield_pending: bool,
    /// Whether an interrupt handler requested a deferred context switch.
    pub yield_from_isr: bool,
}

/// Address of the stack of slot `tid`.
pub open spec fn stack_addr(base: u32, tid: int) -> int {
    base + tid * PAGE_SIZE
}

impl Kernel {
    /// Shape of the kernel state: one control block and one stack per slot,
    /// each block naming its own slot, task lists within capacity and naming
    /// valid slots, a running task once the scheduler is launched, and a
    /// stack pool that fits the 32-bit address space.
    pub open spec fn wf(&self) -> bool {
        &&& self.tcbs@.len() == TASK_MAX
        &&& forall|i: int| 0 <= i < TASK_MAX ==> (#[trigger] self.tcbs@[i]).tid == i
        &&& self.stacks@.len() == TASK_MAX
        &&& forall|i: int| 0 <= i < TASK_MAX ==> (#[trigger] self.stacks@[i])@.len() == PAGE_SIZE_WORDS
        &&& self.stack_base + TASK_MAX * PAGE_SIZE <= u32::MAX
        &&& self.ready_list.wf() && ids_valid(self.ready_list@)
        &&& self.blocked_list.wf() && ids_valid(self.blocked_list@)
        &&& self.sleeping_list.wf() && ids_valid(self.sleeping_list@)
        &&& (self.current matches Some(c) ==> c < TASK_MAX)
        &&& (self.sched_ready ==> self.current is Some)
    }

    /// A kernel with every slot free, empty lists, tick 0 and the scheduler
    /// not launched; the stack pool starts at address `stack_base`.
    pub fn new(stack_base: u32) -> (k: Self)
        requires
            stack_base + TASK_MAX * PAGE_SIZE <= u32::MAX,
        ensures
            k.wf(),
            k.tcbs@ == Seq::new(TASK_MAX as nat, |i: int| empty_tcb(i as usize)),
            k.stack_base == stack_base,
            k.ready_list@ == Seq::<usize>::empty(),
            k.blocked_list@ == Seq::<usize>::empty(),
            k.sleeping_list@ == Seq::<usize>::empty(),
            k.os_ticks == 0,
            k.tid_bitmap == 0,
            k.current is None,
            !k.sched_ready,
            !k.yield_pending,
            !k.yield_from_isr,
    {
        let mut tcbs: Vec<Tcb> = Vec::new();
        let mut stacks: Vec<Vec<u32>> = Vec::new();
        let mut i: usize = 0;
        while i < TASK_MAX
            invariant
                i <= TASK_MAX,
                tcbs@.len() == i,
                stacks@.len() == i,
                forall|j: int| 0 <= j < i ==> #[trigger] tcbs@[j] == empty_tcb(j as usize),
                forall|j: int| 0 <= j < i ==> (#[trigger] stacks@[j])@.len() == PAGE_SIZE_WORDS,
            decreases TASK_MAX - i,
        {
            tcbs.push(Tcb::empty(i));
            stacks.push(vec![0u32; PAGE_SIZE_WORDS]);
            i = i + 1;
        }
        let k = Kernel {
            tcbs,
            stacks,
            stack_base,
            ready_list: TaskList::new(),
            blocked_list: TaskList::new(),
            sleeping_list: TaskList::new(),
            os_ticks: 0,
            tid_bitmap: 0,
            current: None,
            sched_ready: false,
            yield_pending: false,
            yield_from_isr: false,
        };
        assert(k.tcbs@ =~= Seq::new(TASK_MAX as nat, |i: int| empty_tcb(i as usize)));
        k
    }

    /// The tick counter.
    pub fn os_ticks(&self) -> (r: u32)
        ensures
            r == self.os_ticks,
    {
        self.os_ticks
    }

    /// Sets the tick counter.
    pub fn set_os_ticks(&mut self, val: u32)
        ensures
            *final(self) == (Kernel { os_ticks: val, ..*old(self) }),
    {
        self.os_ticks = val;
    }

    /// Claims the lowest free slot, resetting its control block.
    pub fn alloc_tid(&mut self) -> (r: Option<usize>)
        requires
            old(self).wf(),
        ensures
            final(self).wf(),
            match r {
                Some(t) => {
                    &&& t < TASK_MAX
                    &&& !tid_used(old(self).tid_bitmap, t as int)
                    &&& forall|u: int| 0 <= u < t ==> tid_used(old(self).tid_bitmap, u)
                    &&& final(self).tid_bitmap == old(self).tid_bitmap | (1u32 << (t as u32))
                    &&& final(self).tcbs@ == old(self).tcbs@.update(t as int, empty_tcb(t))
                    &&& *final(self) == (Kernel {
                        tcbs: final(self).tcbs,
                        tid_bitmap: final(self).tid_bitmap,
                        ..*old(self)
                    })
                },
                None => {
                    &&& forall|u: int| 0 <= u < TASK_MAX ==> tid_used(old(self).tid_bitmap, u)
                    &&& *final(self) == *old(self)
                },
            },
    {
        let mut tid: usize = 0;
        while tid < TASK_MAX
            invariant
                tid <= TASK_MAX,
                old(self).wf(),
                *self == *old(self),
                forall|u: int| 0 <= u < tid ==> tid_used(self.tid_bitmap, u),
            decreases TASK_MAX - tid,
        {
            let bm = self.tid_bitmap;
            let t = tid as u32;
            proof {
                assert(t < 32 ==> ((bm & (1u32 << t)) == 0u32) == ((bm >> t) & 1u32 != 1u32))
                    by (bit_vector);
            }
            if (bm & (1u32 << t)) == 0 {
                self.tid_bitmap = bm | (1u32 << t);
                self.tcbs[tid] = Tcb::empty(tid);
                return Some(tid);
            }
            tid = tid + 1;
        }
        None
    }

    /// Releases slot `tid` and marks its task terminated; an out-of-range
    /// `tid` is ignored.
    pub fn free_tid(&mut self, tid: usize)
        requires
            old(self).wf(),
        ensures
            final(self).wf(),
            tid < TASK_MAX ==> {
                &&& final(self).tid_bitmap == old(self).tid_bitmap & !(1u32 << (tid as u32))
                &&& final(self).tcbs@ == old(self).tcbs@.update(
                    tid as int,
                    Tcb { status: TaskStatus::Terminated, ..old(self).tcbs@[tid as int] },
                )
                &&& *final(self) == (Kernel {
                    tcbs: final(self).tcbs,
                    tid_bitmap: final(self).tid_bitmap,
                    ..*old(self)
                })
            },
            tid >= TASK_MAX ==> *final(self) == *old(self),
    {
        if tid < TASK_MAX {
            self.tid_bitmap = self.tid_bitmap & !(1u32 << (tid as u32));
            self.tcbs[tid].status = TaskStatus::Terminated;
        }
    }

    /// Requests a deferred context switch from an interrupt handler.
    pub fn yield_task_from_isr(&mut self)
        ensures
            *final(self) == (Kernel { yield_from_isr: true, ..*old(self) }),
    {
        self.yield_from_isr = true;
    }

    /// Whether a context switch is due; clears the request.
    pub fn take_yield(&mut self) -> (r: bool)
        ensures
            r == old(self).yield_pending,
            *final(self) == (Kernel { yield_pending: false, ..*old(self) }),
    {
        let r = self.yield_pending;
        self.yield_pending = false;
        r
    }
}

} // verus!
