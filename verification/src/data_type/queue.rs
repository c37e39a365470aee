//! Fixed-capacity ring queue (first in, first out).

use vstd::prelude::*;
use vstd::arithmetic::div_mod::{lemma_small_mod, lemma_mod_self_0};

verus! {

/// Index of the `i`-th slot after `head` in a ring of `n` slots.
pub open spec fn ring_slot(n: int, head: int, i: int) -> int {
    if head + i < n {
        head + i
    } else {
        head + i - n
    }
}

/// `(x + 1) % n` for `x < n`, the step that advances a ring index.
pub proof fn lemma_ring_step(x: usize, n: usize)
    requires
        x < n,
    ensures
        ((x + 1) % (n as int)) == (if x + 1 == n { 0 } else { x + 1 }),
{
    if x + 1 == n {
        lemma_mod_self_0(n as int);
    } else {
        lemma_small_mod((x + 1) as nat, n as nat);
    }
}

/// A ring queue holding at most `N` values.
pub struct Queue<T, const N: usize> {
    data: Vec<Option<T>>,
    head: usize,
    tail: usize,
    len: usize,
}

impl<T, const N: usize> View for Queue<T, N> {
    type V = Seq<T>;

    /// The queued values, front first.
    closed spec fn view(&self) -> Seq<T> {
        Seq::new(
            self.len as nat,
            |i: int| self.data@[ring_slot(N as int, self.head as int, i)]->Some_0,
        )
    }
}

impl<T: Copy, const N: usize> Queue<T, N> {
    /// The ring's indices stay in range and every queued slot holds a value.
    pub closed spec fn wf(&self) -> bool {
        &&& self.data@.len() == N
        &&& self.len <= N
        &&& (N == 0 ==> self.head == 0 && self.tail == 0)
        &&& (N > 0 ==> self.head < N && self.tail < N)
        &&& self.tail == ring_slot(N as int, self.head as int, self.len as int) || (N == 0)
        &&& forall|i: int|
            0 <= i < self.len ==> (#[trigger] self.data@[ring_slot(
                N as int,
                self.head as int,
                i,
            )]) is Some
    }

    /// A queue holds at most `N` values.
    pub proof fn lemma_len_bound(&self)
        requires
            self.wf(),
        ensures
            self@.len() <= N,
    {
    }

    /// An empty queue.
    pub fn new() -> (r: Self)
        ensures
            r.wf(),
            r@ == Seq::<T>::empty(),
    {
        let mut data: Vec<Option<T>> = Vec::new();
        let mut k: usize = 0;
        while k < N
            invariant
                k <= N,
                data@.len() == k,
            decreases N - k,
        {
            data.push(None);
            k = k + 1;
        }
        let r = Queue { data, head: 0, tail: 0, len: 0 };
        assert(r@ =~= Seq::<T>::empty());
        r
    }

    /// The capacity `N`.
    pub fn capacity() -> (r: usize)
        ensures
            r == N,
    {
        N
    }

    /// Number of queued values.
    pub fn size(&self) -> (r: usize)
        requires
            self.wf(),
        ensures
            r == self@.len(),
            r <= N,
    {
        self.len
    }

    /// Whether the queue holds `N` values.
    pub fn full(&self) -> (r: bool)
        requires
            self.wf(),
        ensures
            r == (self@.len() >= N),
    {
        self.len >= N
    }

    /// Whether the queue is empty.
    pub fn empty(&self) -> (r: bool)
        requires
            self.wf(),
        ensures
            r == (self@.len() == 0),
    {
        self.len == 0
    }

    /// Drops every value.
    pub fn clear(&mut self)
        requires
            old(self).wf(),
        ensures
            final(self).wf(),
            final(self)@ == Seq::<T>::empty(),
    {
        self.head = 0;
        self.tail = 0;
        self.len = 0;
        assert(self@ =~= Seq::<T>::empty());
    }

    /// The front value, if any.
    pub fn front(&self) -> (r: Option<&T>)
        requires
            self.wf(),
        ensures
            r == (if self@.len() == 0 { None } else { Some(&self@[0]) }),
    {
        if self.empty() {
            None
        } else {
            assert(self.data@[ring_slot(N as int, self.head as int, 0)] is Some);
            self.data[self.head].as_ref()
        }
    }

    /// The back value, if any.
    pub fn back(&self) -> (r: Option<&T>)
        requires
            self.wf(),
        ensures
            r == (if self@.len() == 0 { None } else { Some(&self@.last()) }),
    {
        if self.empty() {
            None
        } else {
            let idx = if self.tail == 0 {
                N - 1
            } else {
                self.tail - 1
            };
            assert(idx == ring_slot(N as int, self.head as int, self.len - 1));
            assert(self.data@[ring_slot(N as int, self.head as int, self.len - 1)] is Some);
            self.data[idx].as_ref()
        }
    }

    /// Appends `val` at the back; returns `false` and leaves the queue as it
    /// is when it is full.
    pub fn push(&mut self, val: T) -> (r: bool)
        requires
            old(self).wf(),
        ensures
            final(self).wf(),
            r == (old(self)@.len() < N),
            final(self)@ == (if r { old(self)@.push(val) } else { old(self)@ }),
            final(self)@.len() <= N,
    {
        if self.full() {
            return false;
        }
        let ghost old_data = self.data@;
        let t = self.tail;
        self.data.set(t, Some(val));
        proof {
            lemma_ring_step(t, N);
        }
        self.tail = (t + 1) % N;
        self.len = self.len + 1;
        proof {
            assert forall|i: int| 0 <= i < self.len - 1 implies #[trigger] ring_slot(
                N as int,
                self.head as int,
                i,
            ) != t as int by {}
            assert(self@ =~= old(self)@.push(val));
        }
        true
    }

    /// Drops the front value; returns `false` when the queue is empty.
    pub fn pop(&mut self) -> (r: bool)
        requires
            old(self).wf(),
        ensures
            final(self).wf(),
            r == (old(self)@.len() > 0),
            final(self)@ == (if r { old(self)@.drop_first() } else { old(self)@ }),
    {
        if self.empty() {
            return false;
        }
        let h = self.head;
        proof {
            lemma_ring_step(h, N);
        }
        self.head = (h + 1) % N;
        self.len = self.len - 1;
        proof {
            assert forall|i: int| 0 <= i < self.len implies #[trigger] ring_slot(
                N as int,
                self.head as int,
                i,
            ) == ring_slot(N as int, h as int, i + 1) by {}
            assert(self@ =~= old(self)@.drop_first());
        }
        true
    }

    /// Removes and returns the front value, if any.
    pub fn serve(&mut self) -> (r: Option<T>)
        requires
            old(self).wf(),
        ensures
            final(self).wf(),
            r == (if old(self)@.len() == 0 { None } else { Some(old(self)@[0]) }),
            old(self)@.len() == 0 ==> *final(self) == *old(self),
            old(self)@.len() > 0 ==> final(self)@ == old(self)@.drop_first(),
    {
        if self.empty() {
            return None;
        }
        assert(self.data@[ring_slot(N as int, self.head as int, 0)] is Some);
        let val = match self.data[self.head] {
            Some(v) => v,
            None => { return None; },
        };
        self.pop();
        Some(val)
    }

    /// The `i`-th queued value, counting from the front.
    pub fn get(&self, i: usize) -> (r: &T)
        requires
            self.wf(),
            i < self@.len(),
        ensures
            *r == self@[i as int],
    {
        let idx = if i < N - self.head { self.head + i } else { i - (N - self.head) };
        assert(idx == ring_slot(N as int, self.head as int, i as int));
        assert(self.data@[ring_slot(N as int, self.head as int, i as int)] is Some);
        self.data[idx].as_ref().unwrap()
    }

    /// Calls `f` on each queued value, front first.
    pub fn iter(&self, mut f: impl FnMut(&T))
        requires
            self.wf(),
            forall|x: &T| #[trigger] f.requires((x,)),
        ensures
            self@.len() <= N,
            forall|i: int| 0 <= i < self@.len() ==> call_ensures(f, (&self@[i],), ()),
    {
        let ghost f0 = f;
        let mut i = self.head;
        let mut k: usize = 0;
        while k < self.len
            invariant
                f == f0,
                self.wf(),
                k <= self.len,
                N > 0 ==> i < N,
                k < self.len ==> i == ring_slot(N as int, self.head as int, k as int),
                forall|x: &T| #[trigger] f.requires((x,)),
                forall|j: int| 0 <= j < k ==> call_ensures(f, (&self@[j],), ()),
            decreases self.len - k,
        {
            assert(self.data@[ring_slot(N as int, self.head as int, k as int)] is Some);
            match &self.data[i] {
                Some(v) => {
                    assert(*v == self@[k as int]);
                    f(v);
                },
                None => {},
            }
            proof {
                lemma_ring_step(i, N);
            }
            i = (i + 1) % N;
            k = k + 1;
        }
    }
}

/// An operation on a queue, as its contract describes it.
pub enum QueueOp<T> {
    /// `push`.
    Push(T),
    /// `pop` or `serve`.
    Pop,
    /// `clear`.
    Clear,
}

/// The values after `op` on a queue of capacity `cap` holding `s`.
pub open spec fn apply_op<T>(s: Seq<T>, op: QueueOp<T>, cap: nat) -> Seq<T> {
    match op {
        QueueOp::Push(v) => if s.len() < cap { s.push(v) } else { s },
        QueueOp::Pop => if s.len() > 0 { s.drop_first() } else { s },
        QueueOp::Clear => Seq::empty(),
    }
}

/// The values after the operations `ops`, in order.
pub open spec fn apply_ops<T>(s: Seq<T>, ops: Seq<QueueOp<T>>, cap: nat) -> Seq<T>
    decreases ops.len(),
{
    if ops.len() == 0 {
        s
    } else {
        apply_ops(apply_op(s, ops[0], cap), ops.drop_first(), cap)
    }
}

/// The count after the operations `ops`, starting from `n` values: a push
/// counts when the queue is not full, a pop when it is not empty, and a
/// clear starts again from 0.
pub open spec fn count_after<T>(n: int, ops: Seq<QueueOp<T>>, cap: nat) -> int
    decreases ops.len(),
{
    if ops.len() == 0 {
        n
    } else {
        let m = match ops[0] {
            QueueOp::Push(_) => if n < cap { n + 1 } else { n },
            QueueOp::Pop => if n > 0 { n - 1 } else { n },
            QueueOp::Clear => 0,
        };
        count_after(m, ops.drop_first(), cap)
    }
}

/// Counting: after any operations, the size is the number of successful
/// pushes less the successful pops and serves since the last clear (or the
/// start), and it stays between 0 and the capacity.
pub proof fn law_queue_size<T>(s: Seq<T>, ops: Seq<QueueOp<T>>, cap: nat)
    requires
        s.len() <= cap,
    ensures
        apply_ops(s, ops, cap).len() == count_after(s.len() as int, ops, cap),
        0 <= count_after(s.len() as int, ops, cap) <= cap,
    decreases ops.len(),
{
    if ops.len() > 0 {
        law_queue_size(apply_op(s, ops[0], cap), ops.drop_first(), cap);
    }
}

/// First in, first out: values come out of the queue in the order they
/// went in. Serving after a push yields the old front, or the pushed value
/// when the queue was empty, and leaves the rest in order behind it.
pub proof fn law_fifo<T>(s: Seq<T>, x: T)
    ensures
        s.push(x)[0] == (if s.len() == 0 { x } else { s[0] }),
        s.len() > 0 ==> s.push(x).drop_first() == s.drop_first().push(x),
        s.len() == 0 ==> s.push(x).drop_first() == Seq::<T>::empty(),
{
    if s.len() > 0 {
        assert(s.push(x).drop_first() =~= s.drop_first().push(x));
    } else {
        assert(s.push(x).drop_first() =~= Seq::<T>::empty());
    }
}

} // verus!
