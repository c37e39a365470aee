//! Task lists: ordered sequences of task ids backed by `heapless::Vec`.

use vstd::prelude::*;
use crate::config::TASK_MAX;

verus! {

#[verifier::external_type_specification]
#[verifier::external_body]
#[verifier::reject_recursive_types(T)]
pub struct ExHeaplessVec<T, const N: usize>(heapless::Vec<T, N>);

/// The ids held by a `heapless::Vec` of task ids, front first.
pub uninterp spec fn vec_ids(v: heapless::Vec<usize, TASK_MAX>) -> Seq<usize>;

/// `heapless::Vec::new`: an empty vector.
#[verifier::external_body]
fn ids_new() -> (r: heapless::Vec<usize, TASK_MAX>)
    ensures
        vec_ids(r) == Seq::<usize>::empty(),
{
    heapless::Vec::new()
}

/// `heapless::Vec::push`: appends when fewer than `TASK_MAX` items are held,
/// else hands the item back and leaves the vector unchanged.
#[verifier::external_body]
fn ids_push(v: &mut heapless::Vec<usize, TASK_MAX>, item: usize) -> (r: Result<(), usize>)
    ensures
        r == (if vec_ids(*old(v)).len() < TASK_MAX { Ok(()) } else { Err(item) }),
        vec_ids(*final(v)) == (if vec_ids(*old(v)).len() < TASK_MAX {
            vec_ids(*old(v)).push(item)
        } else {
            vec_ids(*old(v))
        }),
{
    v.push(item)
}

/// `heapless::Vec::insert`: inserts at `index` (at most the length), shifting
/// later items right; a full vector hands the item back unchanged.
#[verifier::external_body]
fn ids_insert(v: &mut heapless::Vec<usize, TASK_MAX>, index: usize, item: usize) -> (r: Result<
    (),
    usize,
>)
    requires
        index <= vec_ids(*old(v)).len(),
    ensures
        r == (if vec_ids(*old(v)).len() == TASK_MAX { Err(item) } else { Ok(()) }),
        vec_ids(*final(v)) == (if vec_ids(*old(v)).len() == TASK_MAX {
            vec_ids(*old(v))
        } else {
            vec_ids(*old(v)).insert(index as int, item)
        }),
{
    v.insert(index, item)
}

/// `heapless::Vec::remove`: removes and returns the item at `index` (below
/// the length), shifting later items left.
#[verifier::external_body]
fn ids_remove(v: &mut heapless::Vec<usize, TASK_MAX>, index: usize) -> (r: usize)
    requires
        index < vec_ids(*old(v)).len(),
    ensures
        r == vec_ids(*old(v))[index as int],
        vec_ids(*final(v)) == vec_ids(*old(v)).remove(index as int),
{
    v.remove(index)
}

/// `heapless::Vec::as_slice`: the items held, as a slice.
#[verifier::external_body]
fn ids_as_slice(v: &heapless::Vec<usize, TASK_MAX>) -> (r: &[usize])
    ensures
        r@ == vec_ids(*v),
{
    v.as_slice()
}

/// `heapless::Vec::is_full`: whether `TASK_MAX` items are held.
#[verifier::external_body]
fn ids_is_full(v: &heapless::Vec<usize, TASK_MAX>) -> (r: bool)
    ensures
        r == (vec_ids(*v).len() == TASK_MAX),
{
    v.is_full()
}

/// `heapless::Vec::is_empty`: whether no item is held.
#[verifier::external_body]
fn ids_is_empty(v: &heapless::Vec<usize, TASK_MAX>) -> (r: bool)
    ensures
        r == (vec_ids(*v).len() == 0),
{
    v.is_empty()
}

/// The position of the first occurrence of `x` in `s`, or `s.len()`.
pub open spec fn first_index(s: Seq<usize>, x: usize) -> int
    decreases s.len(),
{
    if s.len() == 0 {
        0
    } else if s[0] == x {
        0
    } else {
        1 + first_index(s.drop_first(), x)
    }
}

/// `s` without the first occurrence of `x` (unchanged when `x` is absent).
pub open spec fn remove_first(s: Seq<usize>, x: usize) -> Seq<usize> {
    if s.contains(x) {
        s.remove(first_index(s, x))
    } else {
        s
    }
}

pub proof fn lemma_first_index(s: Seq<usize>, x: usize)
    ensures
        0 <= first_index(s, x) <= s.len(),
        s.contains(x) ==> first_index(s, x) < s.len() && s[first_index(s, x)] == x,
        forall|j: int| 0 <= j < first_index(s, x) ==> s[j] != x,
        !s.contains(x) ==> first_index(s, x) == s.len(),
    decreases s.len(),
{
    if s.len() > 0 && s[0] != x {
        lemma_first_index(s.drop_first(), x);
        assert forall|j: int| 0 <= j < first_index(s, x) implies s[j] != x by {
            if j > 0 {
                assert(s[j] == s.drop_first()[j - 1]);
            }
        }
        if s.contains(x) {
            let k = choose|k: int| 0 <= k < s.len() && s[k] == x;
            assert(k > 0);
            assert(s.drop_first()[k - 1] == x);
        } else {
            assert forall|k: int| 0 <= k < s.drop_first().len() implies s.drop_first()[k] != x by {
                assert(s.drop_first()[k] == s[k + 1]);
            }
        }
    } else if s.len() > 0 {
        assert(s.contains(x)) by {
            assert(s[0] == x);
        }
    }
}

/// In a list without repeated ids, removing the first occurrence of `x`
/// leaves no `x` behind.
pub proof fn lemma_remove_first_gone(s: Seq<usize>, x: usize)
    requires
        s.no_duplicates(),
    ensures
        !remove_first(s, x).contains(x),
{
    if s.contains(x) {
        lemma_first_index(s, x);
        let fi = first_index(s, x);
        let r = remove_first(s, x);
        assert forall|j: int| 0 <= j < r.len() implies r[j] != x by {
            if j < fi {
                assert(r[j] == s[j]);
            } else {
                assert(r[j] == s[j + 1]);
            }
        }
    }
}

/// A list of task ids, in scheduling order.
pub struct TaskList {
    tids: heapless::Vec<usize, TASK_MAX>,
}

impl View for TaskList {
    type V = Seq<usize>;

    /// The ids, front first.
    closed spec fn view(&self) -> Seq<usize> {
        vec_ids(self.tids)
    }
}

impl TaskList {
    /// A task list never holds more than `TASK_MAX` ids.
    pub open spec fn wf(&self) -> bool {
        self@.len() <= TASK_MAX
    }

    /// An empty list.
    pub fn new() -> (r: Self)
        ensures
            r.wf(),
            r@ == Seq::<usize>::empty(),
    {
        TaskList { tids: ids_new() }
    }

    /// Appends `tid`; when the list is full `tid` is handed back and the list
    /// is left as it is.
    pub fn push_back(&mut self, tid: usize) -> (r: Result<(), usize>)
        requires
            old(self).wf(),
        ensures
            final(self).wf(),
            old(self)@.len() < TASK_MAX ==> r == Ok::<(), usize>(()) && final(self)@ == old(self)@.push(
                tid,
            ),
            old(self)@.len() >= TASK_MAX ==> r == Err::<(), usize>(tid) && final(self)@ == old(self)@,
    {
        ids_push(&mut self.tids, tid)
    }

    /// Removes the first occurrence of `tid`, if any.
    pub fn remove(&mut self, tid: usize)
        requires
            old(self).wf(),
        ensures
            final(self).wf(),
            final(self)@ == remove_first(old(self)@, tid),
    {
        let s = ids_as_slice(&self.tids);
        let n = s.len();
        let mut i: usize = 0;
        while i < n && s[i] != tid
            invariant
                s@ == self@,
                n == s@.len(),
                i <= n,
                forall|j: int| 0 <= j < i ==> s@[j] != tid,
            decreases n - i,
        {
            i = i + 1;
        }
        proof {
            lemma_first_index(self@, tid);
        }
        if i < n {
            proof {
                assert(self@.contains(tid));
                if first_index(self@, tid) < i {
                    assert(s@[first_index(self@, tid)] == tid);
                }
                assert(first_index(self@, tid) == i);
            }
            let _ = ids_remove(&mut self.tids, i);
        } else {
            proof {
                assert(!self@.contains(tid));
            }
        }
    }

    /// Removes and returns the front id, if any.
    pub fn pop_front(&mut self) -> (r: Option<usize>)
        requires
            old(self).wf(),
        ensures
            final(self).wf(),
            old(self)@.len() == 0 ==> r == None::<usize> && final(self)@ == old(self)@,
            old(self)@.len() > 0 ==> r == Some(old(self)@[0]) && final(self)@ == old(
                self,
            )@.drop_first(),
    {
        if ids_is_empty(&self.tids) {
            None
        } else {
            let x = ids_remove(&mut self.tids, 0);
            proof {
                assert(old(self)@.remove(0) =~= old(self)@.drop_first());
            }
            Some(x)
        }
    }

    /// The front id, if any.
    pub fn front(&self) -> (r: Option<usize>)
        requires
            self.wf(),
        ensures
            r == (if self@.len() == 0 { None } else { Some(self@[0]) }),
    {
        match ids_as_slice(&self.tids).first() {
            Some(x) => Some(*x),
            None => None,
        }
    }

    /// A reference to the front id, if any.
    pub fn front_ref(&self) -> (r: Option<&usize>)
        requires
            self.wf(),
        ensures
            r == (if self@.len() == 0 { None } else { Some(&self@[0]) }),
    {
        ids_as_slice(&self.tids).first()
    }

    /// Whether the list is empty.
    pub fn is_empty(&self) -> (r: bool)
        requires
            self.wf(),
        ensures
            r == (self@.len() == 0),
    {
        ids_is_empty(&self.tids)
    }

    /// Number of ids held.
    pub fn len(&self) -> (r: usize)
        requires
            self.wf(),
        ensures
            r == self@.len(),
    {
        ids_as_slice(&self.tids).len()
    }

    /// Whether `tid` is held.
    pub fn contains(&self, tid: usize) -> (r: bool)
        requires
            self.wf(),
        ensures
            r == self@.contains(tid),
    {
        let s = ids_as_slice(&self.tids);
        let n = s.len();
        let mut i: usize = 0;
        while i < n
            invariant
                s@ == self@,
                n == s@.len(),
                i <= n,
                forall|j: int| 0 <= j < i ==> s@[j] != tid,
            decreases n - i,
        {
            if s[i] == tid {
                proof {
                    assert(self@[i as int] == tid);
                }
                return true;
            }
            i = i + 1;
        }
        false
    }

    /// The id at position `i`.
    pub fn get(&self, i: usize) -> (r: usize)
        requires
            self.wf(),
            i < self@.len(),
        ensures
            r == self@[i as int],
    {
        ids_as_slice(&self.tids)[i]
    }

    /// Inserts `tid` before the first id for which `is_before` holds (at the
    /// back when there is none). A full list hands `tid` back unchanged.
    pub fn insert_in_order<F: Fn(usize) -> bool>(&mut self, tid: usize, is_before: F) -> (r: Result<
        (),
        usize,
    >)
        requires
            old(self).wf(),
            forall|j: int| 0 <= j < old(self)@.len() ==> is_before.requires((#[trigger] old(self)@[j],)),
        ensures
            final(self).wf(),
            old(self)@.len() == TASK_MAX ==> r == Err::<(), usize>(tid) && final(self)@ == old(self)@,
            old(self)@.len() < TASK_MAX ==> r == Ok::<(), usize>(()) && exists|pos: int|
                0 <= pos <= old(self)@.len() && final(self)@ == old(self)@.insert(pos, tid) && (forall|
                    j: int,
                | 0 <= j < pos ==> is_before.ensures((old(self)@[j],), false)) && (pos < old(
                    self,
                )@.len() ==> is_before.ensures((old(self)@[pos],), true)),
    {
        if ids_is_full(&self.tids) {
            return Err(tid);
        }
        let s = ids_as_slice(&self.tids);
        let n = s.len();
        let mut insert_pos = n;
        let mut i: usize = 0;
        while i < n
            invariant_except_break
                s@ == old(self)@,
                n == s@.len(),
                i <= n,
                insert_pos == n,
                forall|j: int| 0 <= j < i ==> is_before.ensures((s@[j],), false),
                forall|j: int| 0 <= j < s@.len() ==> is_before.requires((#[trigger] s@[j],)),
            ensures
                s@ == old(self)@,
                n == s@.len(),
                insert_pos <= n,
                forall|j: int| 0 <= j < insert_pos ==> is_before.ensures((s@[j],), false),
                insert_pos < n ==> is_before.ensures((s@[insert_pos as int],), true),
            decreases n - i,
        {
            let cur = s[i];
            if is_before(cur) {
                insert_pos = i;
                break;
            }
            i = i + 1;
        }
        let _ = ids_insert(&mut self.tids, insert_pos, tid);
        Ok(())
    }

    /// An iterator over the ids, front first.
    pub fn iter(&self) -> (r: core::slice::Iter<'_, usize>)
        requires
            self.wf(),
        ensures
            vstd::std_specs::iter::IteratorSpec::remaining(&r) == self@.as_ref(),
    {
        broadcast use vstd::std_specs::slice::axiom_spec_slice_iter;

        ids_as_slice(&self.tids).iter()
    }
}

} // verus!
