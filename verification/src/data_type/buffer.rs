//! Fixed-capacity linear buffer.

use vstd::prelude::*;
use vstd::std_specs::iter::IteratorSpec;

verus! {

/// A linear buffer holding at most `N` values.
pub struct Buffer<T: Copy, const N: usize> {
    raw: Vec<T>,
}

impl<T: Copy, const N: usize> View for Buffer<T, N> {
    type V = Seq<T>;

    /// The values held, oldest first.
    closed spec fn view(&self) -> Seq<T> {
        self.raw@
    }
}

impl<T: Copy, const N: usize> Buffer<T, N> {
    /// The buffer never holds more than `N` values.
    pub closed spec fn wf(&self) -> bool {
        self.raw@.len() <= N
    }

    /// A buffer holds at most `N` values.
    pub proof fn lemma_len_bound(&self)
        requires
            self.wf(),
        ensures
            self@.len() <= N,
    {
    }

    /// An empty buffer.
    pub fn new() -> (r: Self)
        ensures
            r.wf(),
            r@ == Seq::<T>::empty(),
    {
        Buffer { raw: Vec::new() }
    }

    /// The capacity `N`.
    pub fn max_size() -> (r: usize)
        ensures
            r == N,
    {
        N
    }

    /// Whether the buffer holds `N` values.
    pub fn full(&self) -> (r: bool)
        requires
            self.wf(),
        ensures
            r == (self@.len() >= N),
    {
        self.raw.len() >= N
    }

    /// Whether the buffer holds nothing.
    pub fn empty(&self) -> (r: bool)
        requires
            self.wf(),
        ensures
            r == (self@.len() == 0),
    {
        self.raw.len() == 0
    }

    /// Number of values held.
    pub fn len(&self) -> (r: usize)
        requires
            self.wf(),
        ensures
            r == self@.len(),
            r <= N,
    {
        self.raw.len()
    }

    /// Appends `data` unless the buffer is full; a full buffer is left as it is.
    pub fn push(&mut self, data: T)
        requires
            old(self).wf(),
        ensures
            final(self).wf(),
            final(self)@ == (if old(self)@.len() < N { old(self)@.push(data) } else { old(self)@ }),
            final(self)@.len() <= N,
    {
        if !self.full() {
            self.raw.push(data);
        }
    }

    /// The last value, if any.
    pub fn back(&self) -> (r: Option<&T>)
        requires
            self.wf(),
        ensures
            r == (if self@.len() == 0 { None } else { Some(&self@.last()) }),
    {
        if self.empty() {
            None
        } else {
            Some(&self.raw[self.raw.len() - 1])
        }
    }

    /// Drops the last value, if any.
    pub fn pop(&mut self)
        requires
            old(self).wf(),
        ensures
            final(self).wf(),
            final(self)@ == (if old(self)@.len() == 0 { old(self)@ } else { old(self)@.drop_last() }),
    {
        if !self.empty() {
            let _ = self.raw.pop();
        }
    }

    /// Drops every value.
    pub fn clear(&mut self)
        requires
            old(self).wf(),
        ensures
            final(self).wf(),
            final(self)@ == Seq::<T>::empty(),
    {
        self.raw.clear();
    }

    /// The values held, as a slice.
    pub fn as_slice(&self) -> (r: &[T])
        requires
            self.wf(),
        ensures
            r@ == self@,
            self@.len() <= N,
    {
        self.raw.as_slice()
    }

    /// An iterator over the values held, oldest first.
    pub fn iter(&self) -> (r: core::slice::Iter<'_, T>)
        requires
            self.wf(),
        ensures
            IteratorSpec::remaining(&r) == self@.as_ref(),
            self@.len() <= N,
    {
        broadcast use vstd::std_specs::slice::axiom_spec_slice_iter;

        self.raw.as_slice().iter()
    }
}

/// A byte buffer used for receiving.
pub type RxBuf<const N: usize> = Buffer<u8, N>;

} // verus!
