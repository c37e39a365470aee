//! Async executor state: the task-slot pool, the timer min-heap ordered by
//! wake-up tick (with wrapping tick comparison), and the timer and yield
//! futures' poll decisions.

use vstd::prelude::*;
use vstd::wrapping::u32_specs::{wrapping_add, wrapping_sub};
use vstd::seq_lib::group_to_multiset_ensures;
use vstd::multiset::{group_multiset_axioms, group_multiset_properties};
use crate::config::ASYNC_POOL_MAX;
use crate::kernel::global::Kernel;
use crate::kernel::task::{created, Task};

verus! {

/// `a` comes strictly before `b` in wrapping tick order: `a - b` (mod 2^32)
/// is negative as a signed 32-bit number.
pub open spec fn tick_before(a: u32, b: u32) -> bool {
    wrapping_sub(a, b) >= 0x8000_0000u32
}

/// Offset of tick `t` from `base`, modulo 2^32.
pub open spec fn tick_offset(t: u32, base: u32) -> int {
    wrapping_sub(t, base) as int
}

/// Inside a window of half the tick range starting at `base`, the wrapping
/// order is the order of offsets from `base`.
pub proof fn lemma_window_order(a: u32, b: u32, base: u32)
    requires
        tick_offset(a, base) < 0x8000_0000,
        tick_offset(b, base) < 0x8000_0000,
    ensures
        tick_before(a, b) <==> tick_offset(a, base) < tick_offset(b, base),
{
}

proof fn lemma_signed_negative(x: u32)
    by (bit_vector)
    ensures
        ((x as i32) < 0) == (x >= 0x8000_0000u32),
{
}

/// A pending timer: the slot to wake and its wake-up tick.
#[derive(Copy, Clone)]
pub struct TimerEntry {
    pub wake_tick: u32,
    pub slot: usize,
}

/// Parent position in a binary heap.
pub open spec fn heap_parent(i: int) -> int {
    (i - 1) / 2
}

/// The min-heap order under wrapping comparison: no entry comes strictly
/// before its parent.
pub open spec fn heap_ordered(s: Seq<TimerEntry>) -> bool {
    forall|i: int| 0 < i < s.len() ==> !tick_before(#[trigger] s[i].wake_tick, s[heap_parent(i)].wake_tick)
}

/// Every tick of `s` lies within half the tick range after `base`.
pub open spec fn in_window(s: Seq<TimerEntry>, base: u32) -> bool {
    forall|i: int| 0 <= i < s.len() ==> tick_offset(#[trigger] s[i].wake_tick, base) < 0x8000_0000
}

/// Some window of half the tick range holds every tick of `s`.
pub open spec fn windowed(s: Seq<TimerEntry>) -> bool {
    exists|base: u32| in_window(s, base)
}

spec fn key_heap(s: Seq<TimerEntry>, base: u32, skip: int) -> bool {
    forall|i: int|
        0 < i < s.len() && i != skip ==> tick_offset(#[trigger] s[i].wake_tick, base) >= tick_offset(
            s[heap_parent(i)].wake_tick,
            base,
        )
}

proof fn lemma_heap_keys(s: Seq<TimerEntry>, base: u32)
    requires
        in_window(s, base),
    ensures
        heap_ordered(s) <==> key_heap(s, base, -1),
{
    assert forall|i: int| 0 < i < s.len() implies !tick_before(
        #[trigger] s[i].wake_tick,
        s[heap_parent(i)].wake_tick,
    ) == (tick_offset(s[i].wake_tick, base) >= tick_offset(s[heap_parent(i)].wake_tick, base)) by {
        assert(0 <= heap_parent(i) < s.len());
        lemma_window_order(s[i].wake_tick, s[heap_parent(i)].wake_tick, base);
    }
    if heap_ordered(s) {
        assert forall|i: int| 0 < i < s.len() && i != -1 implies tick_offset(
            #[trigger] s[i].wake_tick,
            base,
        ) >= tick_offset(s[heap_parent(i)].wake_tick, base) by {
            assert(!tick_before(s[i].wake_tick, s[heap_parent(i)].wake_tick));
        }
    }
    if key_heap(s, base, -1) {
        assert forall|i: int| 0 < i < s.len() implies !tick_before(
            #[trigger] s[i].wake_tick,
            s[heap_parent(i)].wake_tick,
        ) by {
            assert(tick_offset(s[i].wake_tick, base) >= tick_offset(
                s[heap_parent(i)].wake_tick,
                base,
            ));
        }
    }
}

/// In a heap within a window, the root is at or before every entry.
proof fn lemma_heap_root_min(s: Seq<TimerEntry>, base: u32, i: int)
    requires
        in_window(s, base),
        key_heap(s, base, -1),
        0 <= i < s.len(),
    ensures
        tick_offset(s[0].wake_tick, base) <= tick_offset(s[i].wake_tick, base),
    decreases i,
{
    if i > 0 {
        lemma_heap_root_min(s, base, heap_parent(i));
    }
}

proof fn lemma_swap_multiset(s: Seq<TimerEntry>, i: int, j: int)
    requires
        0 <= i < s.len(),
        0 <= j < s.len(),
    ensures
        s.update(i, s[j]).update(j, s[i]).to_multiset() == s.to_multiset(),
{
    broadcast use group_to_multiset_ensures, group_multiset_axioms, group_multiset_properties;

    let s1 = s.update(i, s[j]);
    assert(s1.to_multiset() == s.to_multiset().insert(s[j]).remove(s[i]));
    assert(s1[j] == (if i == j { s[j] } else { s[j] }));
    assert(s1.update(j, s[i]).to_multiset() == s1.to_multiset().insert(s[i]).remove(s1[j]));
    assert(s1.update(j, s[i]).to_multiset() =~= s.to_multiset());
}

/// Heap order everywhere except the edges from `idx` to its children.
spec fn down_heap(s: Seq<TimerEntry>, base: u32, idx: int) -> bool {
    forall|i: int|
        0 < i < s.len() && heap_parent(i) != idx ==> tick_offset(#[trigger] s[i].wake_tick, base)
            >= tick_offset(s[heap_parent(i)].wake_tick, base)
}

/// The children of `idx` are at or after the parent of `idx`.
spec fn up_extra(s: Seq<TimerEntry>, base: u32, idx: int) -> bool {
    forall|c: int|
        0 < c < s.len() && heap_parent(c) == idx ==> tick_offset(#[trigger] s[c].wake_tick, base)
            >= tick_offset(s[heap_parent(idx)].wake_tick, base)
}

proof fn lemma_window_swap(s: Seq<TimerEntry>, base: u32, i: int, j: int)
    requires
        in_window(s, base),
        0 <= i < s.len(),
        0 <= j < s.len(),
    ensures
        in_window(s.update(i, s[j]).update(j, s[i]), base),
{
    let t = s.update(i, s[j]).update(j, s[i]);
    assert forall|k: int| 0 <= k < t.len() implies tick_offset(#[trigger] t[k].wake_tick, base)
        < 0x8000_0000 by {
        if k == j {
        } else if k == i {
        } else {
            assert(t[k] == s[k]);
        }
    }
}

proof fn lemma_sift_up_step(s: Seq<TimerEntry>, base: u32, idx: int)
    requires
        0 < idx < s.len(),
        in_window(s, base),
        key_heap(s, base, idx),
        up_extra(s, base, idx),
        tick_before(s[idx].wake_tick, s[heap_parent(idx)].wake_tick),
    ensures
        ({
            let p = heap_parent(idx);
            let t = s.update(idx, s[p]).update(p, s[idx]);
            &&& in_window(t, base)
            &&& key_heap(t, base, p)
            &&& p > 0 ==> up_extra(t, base, p)
        }),
{
    let p = heap_parent(idx);
    let t = s.update(idx, s[p]).update(p, s[idx]);
    let n = s.len();
    lemma_window_order(s[idx].wake_tick, s[p].wake_tick, base);
    lemma_window_swap(s, base, idx, p);
    assert forall|i: int| 0 < i < n && i != p implies tick_offset(#[trigger] t[i].wake_tick, base)
        >= tick_offset(t[heap_parent(i)].wake_tick, base) by {
        let q = heap_parent(i);
        if i == idx {
        } else if q == idx {
            assert(t[i] == s[i]);
        } else if q == p {
            assert(t[i] == s[i]);
            assert(tick_offset(s[i].wake_tick, base) >= tick_offset(s[p].wake_tick, base));
        } else {
            assert(t[i] == s[i]);
            assert(t[q] == s[q]);
        }
    }
    if p > 0 {
        let g = heap_parent(p);
        assert(tick_offset(s[p].wake_tick, base) >= tick_offset(s[g].wake_tick, base));
        assert forall|c: int| 0 < c < n && heap_parent(c) == p implies tick_offset(
            #[trigger] t[c].wake_tick,
            base,
        ) >= tick_offset(t[heap_parent(p)].wake_tick, base) by {
            assert(t[g] == s[g]);
            if c != idx {
                assert(t[c] == s[c]);
                assert(tick_offset(s[c].wake_tick, base) >= tick_offset(s[p].wake_tick, base));
            }
        }
    }
}

/// The comparisons of `sift_down` pick the earliest of `idx` and its children.
proof fn lemma_down_choice(s: Seq<TimerEntry>, base: u32, idx: int, smallest: int)
    requires
        0 <= idx < s.len(),
        in_window(s, base),
        ({
            let l = 2 * idx + 1;
            let r = 2 * idx + 2;
            let first = if l < s.len() && tick_before(s[l].wake_tick, s[idx].wake_tick) {
                l
            } else {
                idx
            };
            smallest == if r < s.len() && tick_before(s[r].wake_tick, s[first].wake_tick) {
                r
            } else {
                first
            }
        }),
    ensures
        forall|c: int|
            0 < c < s.len() && heap_parent(c) == idx ==> tick_offset(
                #[trigger] s[c].wake_tick,
                base,
            ) >= tick_offset(s[smallest].wake_tick, base),
        tick_offset(s[smallest].wake_tick, base) <= tick_offset(s[idx].wake_tick, base),
        smallest != idx ==> tick_offset(s[smallest].wake_tick, base) < tick_offset(
            s[idx].wake_tick,
            base,
        ),
{
    let l = 2 * idx + 1;
    let r = 2 * idx + 2;
    if l < s.len() {
        lemma_window_order(s[l].wake_tick, s[idx].wake_tick, base);
    }
    if r < s.len() {
        lemma_window_order(s[r].wake_tick, s[idx].wake_tick, base);
        lemma_window_order(s[r].wake_tick, s[l].wake_tick, base);
    }
    assert forall|c: int| 0 < c < s.len() && heap_parent(c) == idx implies c == l || c == r by {}
}

proof fn lemma_sift_down_step(s: Seq<TimerEntry>, base: u32, idx: int, m: int)
    requires
        0 <= idx < s.len(),
        0 < m < s.len(),
        heap_parent(m) == idx,
        in_window(s, base),
        down_heap(s, base, idx),
        idx > 0 ==> up_extra(s, base, idx),
        forall|c: int|
            0 < c < s.len() && heap_parent(c) == idx ==> tick_offset(
                #[trigger] s[c].wake_tick,
                base,
            ) >= tick_offset(s[m].wake_tick, base),
        tick_offset(s[m].wake_tick, base) < tick_offset(s[idx].wake_tick, base),
    ensures
        ({
            let t = s.update(idx, s[m]).update(m, s[idx]);
            &&& in_window(t, base)
            &&& down_heap(t, base, m)
            &&& up_extra(t, base, m)
        }),
{
    let t = s.update(idx, s[m]).update(m, s[idx]);
    let n = s.len();
    lemma_window_swap(s, base, idx, m);
    assert forall|i: int| 0 < i < n && heap_parent(i) != m implies tick_offset(
        #[trigger] t[i].wake_tick,
        base,
    ) >= tick_offset(t[heap_parent(i)].wake_tick, base) by {
        let q = heap_parent(i);
        if i == m {
        } else if q == idx {
            assert(t[i] == s[i]);
        } else if i == idx {
            assert(t[q] == s[q]);
        } else {
            assert(t[i] == s[i]);
            assert(t[q] == s[q]);
        }
    }
    assert forall|c: int| 0 < c < n && heap_parent(c) == m implies tick_offset(
        #[trigger] t[c].wake_tick,
        base,
    ) >= tick_offset(t[heap_parent(m)].wake_tick, base) by {
        assert(t[c] == s[c]);
        assert(c != idx);
    }
}

proof fn lemma_pop_step(s: Seq<TimerEntry>, rest: Seq<TimerEntry>, o: Seq<TimerEntry>, e: TimerEntry)
    requires
        s.len() > 0,
        e == s[0],
        rest.to_multiset() == s.to_multiset().remove(e),
    ensures
        rest.to_multiset().add(o.push(e).to_multiset()) == s.to_multiset().add(o.to_multiset()),
        forall|x: TimerEntry| rest.contains(x) ==> s.contains(x),
{
    broadcast use group_to_multiset_ensures, group_multiset_axioms;

    assert(s.contains(e));
    assert(s.to_multiset().count(e) > 0);
    assert(rest.to_multiset().add(o.push(e).to_multiset()) =~= s.to_multiset().add(o.to_multiset()));
    assert forall|x: TimerEntry| rest.contains(x) implies s.contains(x) by {
        assert(rest.to_multiset().count(x) > 0);
        assert(s.to_multiset().count(x) > 0);
    }
}

/// Min-heap of pending timers, earliest wake-up tick at the root.
pub struct TimerQueue {
    data: Vec<TimerEntry>,
}

impl View for TimerQueue {
    type V = Seq<TimerEntry>;

    /// The entries in heap layout.
    closed spec fn view(&self) -> Seq<TimerEntry> {
        self.data@
    }
}

impl TimerQueue {
    /// At most `ASYNC_POOL_MAX` timers are pending.
    pub open spec fn wf(&self) -> bool {
        self@.len() <= ASYNC_POOL_MAX
    }

    /// An empty timer queue.
    pub fn new() -> (r: Self)
        ensures
            r.wf(),
            r@ == Seq::<TimerEntry>::empty(),
    {
        TimerQueue { data: Vec::new() }
    }

    /// Number of pending timers.
    pub fn len(&self) -> (r: usize)
        ensures
            r == self@.len(),
    {
        self.data.len()
    }

    fn swap(&mut self, i: usize, j: usize)
        requires
            i < old(self)@.len(),
            j < old(self)@.len(),
        ensures
            final(self)@ == old(self)@.update(i as int, old(self)@[j as int]).update(
                j as int,
                old(self)@[i as int],
            ),
            final(self)@.to_multiset() == old(self)@.to_multiset(),
    {
        proof {
            lemma_swap_multiset(self@, i as int, j as int);
        }
        let a = self.data[i];
        let b = self.data[j];
        self.data.set(i, b);
        self.data.set(j, a);
    }

    /// Whether `a` comes strictly before `b` in wrapping tick order.
    fn before(a: u32, b: u32) -> (r: bool)
        ensures
            r == tick_before(a, b),
    {
        let d = a.wrapping_sub(b);
        proof {
            lemma_signed_negative(d);
        }
        (d as i32) < 0
    }

    /// Moves the last entry up while it comes strictly before its parent.
    /// When `on`, the entries lie within the window at `base` and form a heap
    /// but for the last entry's edge, and the result is a heap.
    fn sift_up(&mut self, Ghost(on): Ghost<bool>, Ghost(base): Ghost<u32>)
        requires
            old(self)@.len() > 0,
            on ==> in_window(old(self)@, base) && key_heap(old(self)@, base, old(self)@.len() - 1),
        ensures
            final(self)@.len() == old(self)@.len(),
            final(self)@.to_multiset() == old(self)@.to_multiset(),
            on ==> in_window(final(self)@, base) && key_heap(final(self)@, base, -1),
    {
        let ghost n = self@.len();
        let mut idx = self.data.len() - 1;
        let mut done = false;
        proof {
            if on {
                assert forall|c: int| 0 < c < n && heap_parent(c) == idx implies false by {}
            }
        }
        while idx > 0 && !done
            invariant
                idx < n,
                n == self@.len(),
                self@.to_multiset() == old(self)@.to_multiset(),
                on ==> in_window(self@, base),
                on ==> key_heap(self@, base, if done { -1 } else { idx as int }),
                on && !done && idx > 0 ==> up_extra(self@, base, idx as int),
            decreases 2 * idx + (if done { 0int } else { 1int }),
        {
            let p = (idx - 1) / 2;
            let ghost s = self@;
            if Self::before(self.data[idx].wake_tick, self.data[p].wake_tick) {
                self.swap(idx, p);
                proof {
                    if on {
                        lemma_sift_up_step(s, base, idx as int);
                    }
                }
                idx = p;
            } else {
                proof {
                    if on {
                        lemma_window_order(s[idx as int].wake_tick, s[p as int].wake_tick, base);
                    }
                }
                done = true;
            }
        }
    }

    /// Moves the entry at `idx` down while a child comes strictly before it,
    /// swapping with the earlier child. When `on`, the entries lie within the
    /// window at `base` and form a heap but for the edges below `idx`, and
    /// the result is a heap.
    fn sift_down(&mut self, idx: usize, Ghost(on): Ghost<bool>, Ghost(base): Ghost<u32>)
        requires
            idx < old(self)@.len(),
            old(self)@.len() <= ASYNC_POOL_MAX,
            on ==> in_window(old(self)@, base) && down_heap(old(self)@, base, idx as int) && (idx
                > 0 ==> up_extra(old(self)@, base, idx as int)),
        ensures
            final(self)@.len() == old(self)@.len(),
            final(self)@.to_multiset() == old(self)@.to_multiset(),
            on ==> in_window(final(self)@, base) && key_heap(final(self)@, base, -1),
    {
        let n = self.data.len();
        let mut idx = idx;
        let mut done = false;
        while !done
            invariant
                idx < n,
                n == self@.len(),
                n <= ASYNC_POOL_MAX,
                self@.to_multiset() == old(self)@.to_multiset(),
                on ==> in_window(self@, base),
                on && done ==> key_heap(self@, base, -1),
                on && !done ==> down_heap(self@, base, idx as int),
                on && !done && idx > 0 ==> up_extra(self@, base, idx as int),
            decreases 2 * (n - idx) + (if done { 0int } else { 1int }),
        {
            let left = 2 * idx + 1;
            let right = 2 * idx + 2;
            let ghost s = self@;
            let mut smallest = idx;
            if left < n && Self::before(self.data[left].wake_tick, self.data[smallest].wake_tick) {
                smallest = left;
            }
            if right < n && Self::before(self.data[right].wake_tick, self.data[smallest].wake_tick) {
                smallest = right;
            }
            proof {
                if on {
                    lemma_down_choice(s, base, idx as int, smallest as int);
                }
            }
            if smallest != idx {
                self.swap(idx, smallest);
                proof {
                    if on {
                        lemma_sift_down_step(s, base, idx as int, smallest as int);
                    }
                }
                idx = smallest;
            } else {
                done = true;
            }
        }
    }

    /// Adds a timer, keeping the heap order; a full queue drops it.
    pub fn push(&mut self, entry: TimerEntry)
        requires
            old(self).wf(),
        ensures
            final(self).wf(),
            old(self)@.len() < ASYNC_POOL_MAX ==> final(self)@.to_multiset() == old(
                self,
            )@.to_multiset().insert(entry),
            old(self)@.len() >= ASYNC_POOL_MAX ==> final(self)@ == old(self)@,
            heap_ordered(old(self)@) && windowed(old(self)@.push(entry)) ==> heap_ordered(
                final(self)@,
            ),
    {
        if self.data.len() >= ASYNC_POOL_MAX {
            return;
        }
        let ghost s = self@;
        let ghost base = if windowed(s.push(entry)) {
            choose|b: u32| in_window(s.push(entry), b)
        } else {
            0u32
        };
        self.data.push(entry);
        proof {
            broadcast use group_to_multiset_ensures;

            if heap_ordered(s) && windowed(s.push(entry)) {
                assert(in_window(s, base)) by {
                    assert forall|i: int| 0 <= i < s.len() implies tick_offset(
                        #[trigger] s[i].wake_tick,
                        base,
                    ) < 0x8000_0000 by {
                        assert(self@[i] == s[i]);
                    }
                }
                lemma_heap_keys(s, base);
                assert forall|i: int| 0 < i < self@.len() && i != s.len() implies tick_offset(
                    #[trigger] self@[i].wake_tick,
                    base,
                ) >= tick_offset(self@[heap_parent(i)].wake_tick, base) by {
                    assert(self@[i] == s[i]);
                    assert(self@[heap_parent(i)] == s[heap_parent(i)]);
                }
            }
        }
        let ghost on = heap_ordered(s) && windowed(s.push(entry));
        self.sift_up(Ghost(on), Ghost(base));
        proof {
            if heap_ordered(s) && windowed(s.push(entry)) {
                lemma_heap_keys(self@, base);
            }
        }
    }

    /// Removes and returns the root, keeping the heap order.
    pub fn pop_front(&mut self) -> (r: TimerEntry)
        requires
            old(self).wf(),
            old(self)@.len() > 0,
        ensures
            final(self).wf(),
            r == old(self)@[0],
            final(self)@.len() == old(self)@.len() - 1,
            final(self)@.to_multiset() == old(self)@.to_multiset().remove(r),
            heap_ordered(old(self)@) && windowed(old(self)@) ==> heap_ordered(final(self)@) && (
            forall|i: int| 0 <= i < old(self)@.len() ==> !tick_before(old(self)@[i].wake_tick, r.wake_tick)),
    {
        let ghost s = self@;
        let ghost base = if windowed(s) {
            choose|b: u32| in_window(s, b)
        } else {
            0u32
        };
        proof {
            if heap_ordered(s) && windowed(s) {
                lemma_heap_keys(s, base);
                assert forall|i: int| 0 <= i < s.len() implies !tick_before(s[i].wake_tick, s[0].wake_tick) by {
                    lemma_heap_root_min(s, base, i);
                    lemma_window_order(s[i].wake_tick, s[0].wake_tick, base);
                }
            }
        }
        let top = self.data[0];
        let n = self.data.len();
        if n > 1 {
            let last = self.data[n - 1];
            self.data.set(0, last);
            let _ = self.data.pop();
            proof {
                broadcast use group_to_multiset_ensures, group_multiset_axioms, group_multiset_properties;

                let s1 = s.update(0, s[n - 1]);
                assert(self@ =~= s1.drop_last());
                assert(s1.drop_last() =~= s1.remove(n - 1));
                assert(s1.remove(n - 1).to_multiset() == s1.to_multiset().remove(s1[n - 1]));
                assert(s1.to_multiset() == s.to_multiset().insert(s[n - 1]).remove(s[0]));
                assert(self@.to_multiset() =~= s.to_multiset().remove(s[0]));
                if in_window(s, base) {
                    assert(in_window(self@, base)) by {
                        assert forall|i: int| 0 <= i < self@.len() implies tick_offset(
                            #[trigger] self@[i].wake_tick,
                            base,
                        ) < 0x8000_0000 by {
                            if i == 0 {
                                assert(self@[i] == s[n - 1]);
                            } else {
                                assert(self@[i] == s[i]);
                            }
                        }
                    }
                    if heap_ordered(s) {
                        lemma_heap_keys(s, base);
                        assert forall|i: int| 0 < i < self@.len() && heap_parent(i) != 0 implies tick_offset(
                            #[trigger] self@[i].wake_tick,
                            base,
                        ) >= tick_offset(self@[heap_parent(i)].wake_tick, base) by {
                            assert(self@[i] == s[i]);
                            assert(self@[heap_parent(i)] == s[heap_parent(i)]);
                        }
                    }
                }
            }
            let ghost on = heap_ordered(s) && windowed(s);
            self.sift_down(0, Ghost(on), Ghost(base));
            proof {
                if heap_ordered(s) && windowed(s) {
                    lemma_heap_keys(self@, base);
                }
            }
        } else {
            let _ = self.data.pop();
            proof {
                broadcast use group_to_multiset_ensures, group_multiset_axioms, group_multiset_properties;

                assert(s =~= Seq::<TimerEntry>::empty().push(s[0]));
                assert(self@ =~= Seq::<TimerEntry>::empty());
                assert(self@.to_multiset() =~= s.to_multiset().remove(s[0]));
            }
        }
        top
    }

    /// Wakes, in heap order, every timer whose tick has come (`now` is not
    /// strictly before it): each is removed and its slot in `pool` is marked
    /// ready. Stops at the first timer still in the future. Returns the
    /// removed timers in the order they were taken.
    pub fn wake_expired(&mut self, now: u32, pool: &mut TaskPool) -> (r: Vec<TimerEntry>)
        requires
            old(self).wf(),
            old(pool).wf(),
        ensures
            final(self).wf(),
            final(pool).wf(),
            final(self)@.to_multiset().add(r@.to_multiset()) == old(self)@.to_multiset(),
            forall|i: int| 0 <= i < r@.len() ==> !tick_before(now, #[trigger] r@[i].wake_tick),
            final(self)@.len() == 0 || tick_before(now, final(self)@[0].wake_tick),
            forall|j: int|
                0 <= j < ASYNC_POOL_MAX ==> (#[trigger] final(pool)@[j]).occupied == old(pool)@[j].occupied
                    && final(pool)@[j].ready == (old(pool)@[j].ready || exists|i: int|
                    0 <= i < r@.len() && r@[i].slot == j),
            heap_ordered(old(self)@) && windowed(old(self)@) ==> heap_ordered(final(self)@),
    {
        let mut out: Vec<TimerEntry> = Vec::new();
        proof {
            broadcast use group_to_multiset_ensures, group_multiset_axioms;

            assert(self@.to_multiset().add(out@.to_multiset()) =~= old(self)@.to_multiset());
        }
        let ghost on = heap_ordered(old(self)@) && windowed(old(self)@);
        let mut done = false;
        while !done && self.data.len() > 0
            invariant
                self.wf(),
                pool.wf(),
                self@.to_multiset().add(out@.to_multiset()) == old(self)@.to_multiset(),
                forall|i: int| 0 <= i < out@.len() ==> !tick_before(now, #[trigger] out@[i].wake_tick),
                done ==> self@.len() > 0 && tick_before(now, self@[0].wake_tick),
                forall|j: int|
                    0 <= j < ASYNC_POOL_MAX ==> (#[trigger] pool@[j]).occupied == old(pool)@[j].occupied
                        && pool@[j].ready == (old(pool)@[j].ready || exists|i: int|
                        0 <= i < out@.len() && out@[i].slot == j),
                on ==> heap_ordered(self@) && windowed(self@),
            decreases self@.len() + (if done { 0int } else { 1int }),
        {
            let top_tick = self.data[0].wake_tick;
            if Self::before(now, top_tick) {
                done = true;
            } else {
                let ghost s = self@;
                let ghost o = out@;
                let entry = self.pop_front();
                proof {
                    lemma_pop_step(s, self@, o, entry);
                    if on {
                        let b = choose|b: u32| in_window(s, b);
                        assert(in_window(self@, b)) by {
                            assert forall|i: int| 0 <= i < self@.len() implies tick_offset(
                                #[trigger] self@[i].wake_tick,
                                b,
                            ) < 0x8000_0000 by {
                                assert(self@.contains(self@[i]));
                                let k = choose|k: int| 0 <= k < s.len() && s[k] == self@[i];
                                assert(s[k] == self@[i]);
                            }
                        }
                    }
                }
                pool.wake(entry.slot);
                out.push(entry);
                proof {
                    assert(out@ == o.push(entry));
                    assert forall|j: int| 0 <= j < ASYNC_POOL_MAX implies (#[trigger] pool@[j]).ready
                        == (old(pool)@[j].ready || exists|i: int|
                        0 <= i < out@.len() && out@[i].slot == j) by {
                        if j == entry.slot {
                            assert(out@[o.len() as int].slot == j);
                        }
                        if exists|i: int| 0 <= i < out@.len() && out@[i].slot == j {
                            let i = choose|i: int| 0 <= i < out@.len() && out@[i].slot == j;
                            if i < o.len() {
                                assert(o[i].slot == j);
                            }
                        }
                        if exists|i: int| 0 <= i < o.len() && o[i].slot == j {
                            let i = choose|i: int| 0 <= i < o.len() && o[i].slot == j;
                            assert(out@[i].slot == j);
                        }
                    }
                }
            }
        }
        out
    }
}

// ==========================================
// Task-slot pool
// ==========================================

/// An executor slot: whether it holds a future and whether that future
/// should be polled.
#[derive(Copy, Clone)]
pub struct TaskSlot {
    pub occupied: bool,
    pub ready: bool,
}

impl TaskSlot {
    /// A free slot.
    pub fn empty() -> (r: Self)
        ensures
            !r.occupied && !r.ready,
    {
        TaskSlot { occupied: false, ready: false }
    }

    /// Whether the slot holds no future.
    pub fn is_free(&self) -> (r: bool)
        ensures
            r == !self.occupied,
    {
        !self.occupied
    }
}

/// The slots `post` and result `r` after claiming a slot in `pre`: the
/// lowest free slot becomes occupied and ready; with no free slot nothing
/// changes and the result is `None`.
pub open spec fn slot_claimed(pre: Seq<TaskSlot>, post: Seq<TaskSlot>, r: Option<usize>) -> bool {
    match r {
        Some(i) => {
            &&& i < ASYNC_POOL_MAX
            &&& !pre[i as int].occupied
            &&& forall|j: int| 0 <= j < i ==> (#[trigger] pre[j]).occupied
            &&& post == pre.update(i as int, TaskSlot { occupied: true, ready: true })
        },
        None => {
            &&& forall|j: int| 0 <= j < ASYNC_POOL_MAX ==> (#[trigger] pre[j]).occupied
            &&& post == pre
        },
    }
}

/// The executor's `ASYNC_POOL_MAX` task slots.
pub struct TaskPool {
    slots: Vec<TaskSlot>,
}

impl View for TaskPool {
    type V = Seq<TaskSlot>;

    /// The slots, by index.
    closed spec fn view(&self) -> Seq<TaskSlot> {
        self.slots@
    }
}

impl TaskPool {
    /// There are exactly `ASYNC_POOL_MAX` slots.
    pub open spec fn wf(&self) -> bool {
        self@.len() == ASYNC_POOL_MAX
    }

    /// A pool of free slots.
    pub fn new() -> (r: Self)
        ensures
            r.wf(),
            forall|j: int| 0 <= j < ASYNC_POOL_MAX ==> !(#[trigger] r@[j]).occupied && !r@[j].ready,
    {
        let mut slots: Vec<TaskSlot> = Vec::new();
        let mut i: usize = 0;
        while i < ASYNC_POOL_MAX
            invariant
                i <= ASYNC_POOL_MAX,
                slots@.len() == i,
                forall|j: int| 0 <= j < i ==> !(#[trigger] slots@[j]).occupied && !slots@[j].ready,
            decreases ASYNC_POOL_MAX - i,
        {
            slots.push(TaskSlot::empty());
            i = i + 1;
        }
        TaskPool { slots }
    }

    /// Claims the lowest free slot for a new future, ready to be polled.
    pub fn spawn(&mut self) -> (r: Option<usize>)
        requires
            old(self).wf(),
        ensures
            final(self).wf(),
            slot_claimed(old(self)@, final(self)@, r),
    {
        let mut idx: usize = 0;
        while idx < ASYNC_POOL_MAX
            invariant
                self.wf(),
                self@ == old(self)@,
                idx <= ASYNC_POOL_MAX,
                forall|j: int| 0 <= j < idx ==> (#[trigger] self@[j]).occupied,
            decreases ASYNC_POOL_MAX - idx,
        {
            if self.slots[idx].is_free() {
                self.slots.set(idx, TaskSlot { occupied: true, ready: true });
                return Some(idx);
            }
            idx = idx + 1;
        }
        None
    }

    /// Marks slot `idx` ready to be polled (an out-of-range index is ignored).
    pub fn wake(&mut self, idx: usize)
        requires
            old(self).wf(),
        ensures
            final(self).wf(),
            idx < ASYNC_POOL_MAX ==> final(self)@ == old(self)@.update(
                idx as int,
                TaskSlot { ready: true, ..old(self)@[idx as int] },
            ),
            idx >= ASYNC_POOL_MAX ==> final(self)@ == old(self)@,
    {
        if idx < ASYNC_POOL_MAX {
            let s = self.slots[idx];
            self.slots.set(idx, TaskSlot { ready: true, ..s });
        }
    }

    /// Whether slot `idx` is due a poll: it holds a future that is ready. The
    /// ready mark is consumed.
    pub fn begin_poll(&mut self, idx: usize) -> (r: bool)
        requires
            old(self).wf(),
            idx < ASYNC_POOL_MAX,
        ensures
            final(self).wf(),
            r == (old(self)@[idx as int].occupied && old(self)@[idx as int].ready),
            r ==> final(self)@ == old(self)@.update(
                idx as int,
                TaskSlot { ready: false, ..old(self)@[idx as int] },
            ),
            !r ==> final(self)@ == old(self)@,
    {
        let s = self.slots[idx];
        if s.is_free() || !s.ready {
            return false;
        }
        self.slots.set(idx, TaskSlot { ready: false, ..s });
        true
    }

    /// Frees slot `idx` once its future has completed.
    pub fn clear(&mut self, idx: usize)
        requires
            old(self).wf(),
            idx < ASYNC_POOL_MAX,
        ensures
            final(self).wf(),
            final(self)@ == old(self)@.update(idx as int, TaskSlot { occupied: false, ready: false }),
    {
        self.slots.set(idx, TaskSlot { occupied: false, ready: false });
    }
}

// ==========================================
// Futures
// ==========================================

/// Priority of the executor task.
pub const EXECUTOR_PRI: u8 = 1;

/// Entry points of the async runtime.
pub struct AsyncRuntime;

/// A future completing once the tick `wake_tick` has come.
pub struct Timer {
    pub wake_tick: u32,
    pub registered: bool,
}

/// A future that is pending once, then completes.
pub struct YieldOnce {
    pub yielded: bool,
}

impl AsyncRuntime {
    /// Starts the executor once: while `started` is false, creates the
    /// executor task (`EXECUTOR_PRI`, named "async/exec", entering at `entry`
    /// and returning into `exit`), and `started` records whether that
    /// succeeded. Once started, nothing happens.
    pub fn ensure_init(k: &mut Kernel, started: &mut bool, entry: u32, exit: u32)
        requires
            old(k).wf(),
        ensures
            final(k).wf(),
            *old(started) ==> *final(k) == *old(k) && *final(started),
            !*old(started) ==> exists|r: Result<usize, &'static str>|
                #[trigger] created(*old(k), *final(k), EXECUTOR_PRI, "async/exec", entry, exit, r)
                    && *final(started) == r is Ok,
    {
        if *started {
            return;
        }
        let r = Task::create(k, EXECUTOR_PRI, "async/exec", entry, exit);
        *started = r.is_ok();
    }

    /// Spawns a future: starts the executor if needed (see
    /// [`AsyncRuntime::ensure_init`]) and claims the lowest free slot of
    /// `pool`, occupied and ready to be polled (see [`slot_claimed`]). Gives
    /// the slot that receives the future, or `None` when every slot is taken.
    pub fn spawn(
        k: &mut Kernel,
        started: &mut bool,
        pool: &mut TaskPool,
        entry: u32,
        exit: u32,
    ) -> (r: Option<usize>)
        requires
            old(k).wf(),
            old(pool).wf(),
        ensures
            final(k).wf(),
            final(pool).wf(),
            *old(started) ==> *final(k) == *old(k) && *final(started),
            !*old(started) ==> exists|c: Result<usize, &'static str>|
                #[trigger] created(*old(k), *final(k), EXECUTOR_PRI, "async/exec", entry, exit, c)
                    && *final(started) == c is Ok,
            slot_claimed(old(pool)@, final(pool)@, r),
    {
        Self::ensure_init(k, started, entry, exit);
        pool.spawn()
    }

    /// A timer completing `ms` ticks after the current tick (wrapping).
    pub fn delay(k: &Kernel, ms: u32) -> (r: Timer)
        ensures
            r.wake_tick == wrapping_add(k.os_ticks, ms),
            !r.registered,
    {
        Timer { wake_tick: k.os_ticks.wrapping_add(ms), registered: false }
    }

    /// A future that gives way to the other async tasks once.
    pub fn yield_now() -> (r: YieldOnce)
        ensures
            !r.yielded,
    {
        YieldOnce { yielded: false }
    }
}

impl Timer {
    /// Polls the timer at tick `now` on behalf of the task in `slot`: it is
    /// complete unless `now` comes strictly before its tick; the first
    /// pending poll registers the timer in `timers`.
    pub fn poll_at(&mut self, now: u32, slot: usize, timers: &mut TimerQueue) -> (r: bool)
        requires
            old(timers).wf(),
        ensures
            final(timers).wf(),
            r == !tick_before(now, old(self).wake_tick),
            final(self).wake_tick == old(self).wake_tick,
            final(self).registered == (old(self).registered || !r),
            !r && !old(self).registered && old(timers)@.len() < ASYNC_POOL_MAX
                ==> final(timers)@.to_multiset() == old(timers)@.to_multiset().insert(
                (TimerEntry { wake_tick: old(self).wake_tick, slot }),
            ),
            r || old(self).registered || old(timers)@.len() >= ASYNC_POOL_MAX ==> final(timers)@
                == old(timers)@,
            heap_ordered(old(timers)@) && windowed(
                old(timers)@.push((TimerEntry { wake_tick: old(self).wake_tick, slot })),
            ) ==> heap_ordered(final(timers)@),
    {
        if !TimerQueue::before(now, self.wake_tick) {
            return true;
        }
        if !self.registered {
            self.registered = true;
            timers.push(TimerEntry { wake_tick: self.wake_tick, slot });
        }
        false
    }
}

impl YieldOnce {
    /// Polls on behalf of the task in `slot`: the first poll is pending and
    /// marks the slot ready again; later polls complete.
    pub fn poll_once(&mut self, slot: usize, pool: &mut TaskPool) -> (r: bool)
        requires
            old(pool).wf(),
        ensures
            final(pool).wf(),
            r == old(self).yielded,
            final(self).yielded,
            r ==> final(pool)@ == old(pool)@,
            !r && slot < ASYNC_POOL_MAX ==> final(pool)@ == old(pool)@.update(
                slot as int,
                TaskSlot { ready: true, ..old(pool)@[slot as int] },
            ),
            !r && slot >= ASYNC_POOL_MAX ==> final(pool)@ == old(pool)@,
    {
        if self.yielded {
            true
        } else {
            self.yielded = true;
            pool.wake(slot);
            false
        }
    }
}

} // verus!
