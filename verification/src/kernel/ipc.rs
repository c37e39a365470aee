//! Inter-task communication: bounded message queues with timeouts.
//!
//! A full `send` or an empty `recv` registers the running task in the
//! queue's senders or receivers list and puts it to sleep for the timeout;
//! a later `recv` or `send` wakes the first registered task early. When the
//! task runs again, `send_resume` / `recv_resume` finish the operation.

use vstd::prelude::*;
use vstd::wrapping::u32_specs::wrapping_add;
use crate::config::TASK_MAX;
use crate::data_type::queue::Queue;
use crate::kernel::global::{
    Kernel, ids_valid, insert_by_priority, ordered_insert, prio_before, wake_before,
    lemma_remove_first_valid, first_true, lemma_first_true_bound,
};
use crate::kernel::list::{TaskList, remove_first, first_index, lemma_first_index};
use crate::kernel::task::Task;
use crate::kernel::tcb::{Tcb, TaskStatus};

verus! {

/// Outcome of a message-queue operation.
#[derive(Debug, PartialEq, Eq, Structural, Clone, Copy)]
pub enum IpcStatus {
    Success,
    TimeOut,
}

/// A message-queue operation either finished or left the running task
/// waiting (a context switch is pending; resume the operation afterwards).
pub enum IpcStep<T> {
    Done(Result<T, IpcStatus>),
    Wait,
}

/// The kernel after task `w`, registered on a message queue, is woken early:
/// it leaves the sleeping list, becomes ready with wake-up time `u32::MAX`,
/// is queued by priority, and a context switch is requested when it is more
/// urgent than the running task.
pub open spec fn ipc_woken(pre: Kernel, post: Kernel, w: usize) -> bool {
    let tcbs = pre.tcbs@.update(
        w as int,
        Tcb { wake_point: 0xFFFF_FFFF, status: TaskStatus::Ready, ..pre.tcbs@[w as int] },
    );
    &&& post.tcbs@ == tcbs
    &&& post.sleeping_list@ == remove_first(pre.sleeping_list@, w)
    &&& post.ready_list@ == ordered_insert(
        pre.ready_list@,
        w,
        prio_before(tcbs[w as int].priority, tcbs),
    )
    &&& post.yield_pending == (pre.yield_pending || (pre.current is Some && tcbs[w as int].priority
        < tcbs[pre.current->Some_0 as int].priority))
    &&& post == (Kernel {
        tcbs: post.tcbs,
        sleeping_list: post.sleeping_list,
        ready_list: post.ready_list,
        yield_pending: post.yield_pending,
        ..pre
    })
}

/// The first task registered in `list` (if any) is woken early.
pub open spec fn wake_first(list: Seq<usize>, list2: Seq<usize>, pre: Kernel, post: Kernel) -> bool {
    if list.len() > 0 {
        list2 == list.drop_first() && ipc_woken(pre, post, list[0])
    } else {
        list2 == list && post == pre
    }
}

/// The running task registers in `list` by priority and sleeps for
/// `timeout` ticks (see `Task::delay`).
pub open spec fn wait_registered(
    list: Seq<usize>,
    list2: Seq<usize>,
    pre: Kernel,
    post: Kernel,
    timeout: u32,
) -> bool {
    let c = pre.current->Some_0;
    let wake = wrapping_add(pre.os_ticks, timeout);
    let tcbs = pre.tcbs@.update(
        c as int,
        Tcb {
            wake_point: wake,
            sleep_start: pre.os_ticks,
            status: TaskStatus::Blocked,
            ..pre.tcbs@[c as int]
        },
    );
    &&& list2 == ordered_insert(list, c, prio_before(pre.tcbs@[c as int].priority, pre.tcbs@))
    &&& post.tcbs@ == tcbs
    &&& post.ready_list@ == remove_first(pre.ready_list@, c)
    &&& post.sleeping_list@ == ordered_insert(pre.sleeping_list@, c, wake_before(wake, tcbs))
    &&& post == (Kernel {
        tcbs: post.tcbs,
        ready_list: post.ready_list,
        sleeping_list: post.sleeping_list,
        yield_pending: true,
        ..pre
    })
}

impl Kernel {
    /// Wakes the first task registered in `list` early (see [`wake_first`]).
    pub fn try_wake_up(&mut self, list: &mut TaskList)
        requires
            old(self).wf(),
            old(list).wf(),
            ids_valid(old(list)@),
        ensures
            final(self).wf(),
            final(list).wf(),
            ids_valid(final(list)@),
            wake_first(old(list)@, final(list)@, *old(self), *final(self)),
    {
        let ghost l = list@;
        match list.pop_front() {
            Some(woken_tid) => {
                proof {
                    assert(l[0] < TASK_MAX);
                    assert forall|i: int| 0 <= i < list@.len() implies #[trigger] list@[i] < TASK_MAX by {
                        assert(list@[i] == l[i + 1]);
                    }
                }
                self.tcbs[woken_tid].wake_point = 0xFFFF_FFFF;
                self.tcbs[woken_tid].status = TaskStatus::Ready;
                proof {
                    lemma_remove_first_valid(self.sleeping_list@, woken_tid);
                    assert(self.tcbs@ =~= old(self).tcbs@.update(
                        woken_tid as int,
                        Tcb {
                            wake_point: 0xFFFF_FFFF,
                            status: TaskStatus::Ready,
                            ..old(self).tcbs@[woken_tid as int]
                        },
                    ));
                }
                self.sleeping_list.remove(woken_tid);
                let priority = self.tcbs[woken_tid].priority;
                let _ = insert_by_priority(&mut self.ready_list, &self.tcbs, woken_tid, priority);
                match self.current {
                    Some(c) => {
                        let cr_tid = self.tcbs[c].tid;
                        if priority < self.tcbs[cr_tid].priority {
                            self.yield_pending = true;
                        }
                    },
                    None => {},
                }
            },
            None => {},
        }
    }

    /// Registers the running task in `list` by priority and puts it to sleep
    /// for `timeout` ticks; with a timeout of 0 nothing happens and the result
    /// is `false`.
    pub fn wait_on(&mut self, list: &mut TaskList, timeout: u32) -> (r: bool)
        requires
            old(self).wf(),
            old(list).wf(),
            ids_valid(old(list)@),
            timeout != 0 ==> old(self).current is Some,
        ensures
            final(self).wf(),
            final(list).wf(),
            ids_valid(final(list)@),
            r == (timeout != 0),
            !r ==> *final(self) == *old(self) && *final(list) == *old(list),
            r ==> wait_registered(old(list)@, final(list)@, *old(self), *final(self), timeout),
    {
        if timeout == 0 {
            return false;
        }
        let c = match self.current {
            Some(c) => c,
            None => { return false; },
        };
        let cr_tid = self.tcbs[c].tid;
        let priority = self.tcbs[cr_tid].priority;
        let _ = insert_by_priority(list, &self.tcbs, cr_tid, priority);
        Task::delay(self, timeout);
        true
    }

    /// After a registered wait: when the running task is still registered in
    /// `list` the wait timed out and it is removed (`TimeOut`); otherwise it
    /// was woken by the other side (`Success`).
    pub fn wait_outcome(&self, list: &mut TaskList) -> (r: IpcStatus)
        requires
            self.wf(),
            old(list).wf(),
            ids_valid(old(list)@),
            self.current is Some,
        ensures
            final(list).wf(),
            ids_valid(final(list)@),
            old(list)@.contains(self.current->Some_0) ==> r == IpcStatus::TimeOut && final(list)@
                == remove_first(old(list)@, self.current->Some_0),
            !old(list)@.contains(self.current->Some_0) ==> r == IpcStatus::Success && *final(list)
                == *old(list),
    {
        let c = match self.current {
            Some(c) => c,
            None => { return IpcStatus::Success; },
        };
        let cr_tid = self.tcbs[c].tid;
        if list.contains(cr_tid) {
            proof {
                lemma_remove_first_valid(list@, cr_tid);
            }
            list.remove(cr_tid);
            IpcStatus::TimeOut
        } else {
            IpcStatus::Success
        }
    }
}

/// A bounded message queue of capacity `N`.
pub struct MsgQueue<T, const N: usize> {
    buffer: Queue<T, N>,
    senders: TaskList,
    receivers: TaskList,
}

impl<T: Copy, const N: usize> MsgQueue<T, N> {
    /// The buffer and both wait lists are well formed.
    pub closed spec fn wf(&self) -> bool {
        &&& self.buffer.wf()
        &&& self.senders.wf() && ids_valid(self.senders@)
        &&& self.receivers.wf() && ids_valid(self.receivers@)
    }

    /// The queued messages, oldest first.
    pub closed spec fn items(&self) -> Seq<T> {
        self.buffer@
    }

    /// A message queue holds at most `N` messages.
    pub proof fn lemma_items_bound(&self)
        requires
            self.wf(),
        ensures
            self.items().len() <= N,
    {
        self.buffer.lemma_len_bound();
    }

    /// Tasks waiting to send, most urgent first.
    pub closed spec fn waiting_senders(&self) -> Seq<usize> {
        self.senders@
    }

    /// Tasks waiting to receive, most urgent first.
    pub closed spec fn waiting_receivers(&self) -> Seq<usize> {
        self.receivers@
    }

    /// An empty queue nobody waits on.
    pub fn new() -> (r: Self)
        ensures
            r.wf(),
            r.items() == Seq::<T>::empty(),
            r.waiting_senders() == Seq::<usize>::empty(),
            r.waiting_receivers() == Seq::<usize>::empty(),
    {
        MsgQueue { buffer: Queue::new(), senders: TaskList::new(), receivers: TaskList::new() }
    }

    /// Sends `msg`. With room, the message is queued, the first waiting
    /// receiver is woken and the send is done. A full queue with a timeout of
    /// 0 fails with `TimeOut`. Otherwise the running task registers as a
    /// sender and sleeps up to `timeout` ticks: the result is `Wait`, and
    /// [`MsgQueue::send_resume`] finishes once the task runs again.
    pub fn send(&mut self, k: &mut Kernel, msg: T, timeout: u32) -> (r: IpcStep<()>)
        requires
            old(self).wf(),
            old(k).wf(),
            old(self).items().len() >= N && timeout != 0 ==> old(k).current is Some,
        ensures
            final(self).wf(),
            final(k).wf(),
            old(self).items().len() < N ==> {
                &&& r == IpcStep::Done(Ok::<(), IpcStatus>(()))
                &&& final(self).items() == old(self).items().push(msg)
                &&& final(self).waiting_senders() == old(self).waiting_senders()
                &&& wake_first(
                    old(self).waiting_receivers(),
                    final(self).waiting_receivers(),
                    *old(k),
                    *final(k),
                )
            },
            old(self).items().len() >= N && timeout == 0 ==> {
                &&& r == IpcStep::Done(Err::<(), IpcStatus>(IpcStatus::TimeOut))
                &&& *final(self) == *old(self)
                &&& *final(k) == *old(k)
            },
            old(self).items().len() >= N && timeout != 0 ==> {
                &&& r == IpcStep::<()>::Wait
                &&& final(self).items() == old(self).items()
                &&& final(self).waiting_receivers() == old(self).waiting_receivers()
                &&& wait_registered(
                    old(self).waiting_senders(),
                    final(self).waiting_senders(),
                    *old(k),
                    *final(k),
                    timeout,
                )
            },
    {
        if !self.buffer.full() {
            self.buffer.push(msg);
            k.try_wake_up(&mut self.receivers);
            return IpcStep::Done(Ok(()));
        }
        if k.wait_on(&mut self.senders, timeout) {
            IpcStep::Wait
        } else {
            IpcStep::Done(Err(IpcStatus::TimeOut))
        }
    }

    /// Finishes a send that waited: a timed-out sender leaves the senders
    /// list and fails with `TimeOut`; a woken sender queues `msg` (waking the
    /// first waiting receiver) when there is room, else fails with `TimeOut`.
    pub fn send_resume(&mut self, k: &mut Kernel, msg: T) -> (r: Result<(), IpcStatus>)
        requires
            old(self).wf(),
            old(k).wf(),
            old(k).current is Some,
        ensures
            final(self).wf(),
            final(k).wf(),
            ({
                let c = old(k).current->Some_0;
                if old(self).waiting_senders().contains(c) {
                    &&& r == Err::<(), IpcStatus>(IpcStatus::TimeOut)
                    &&& final(self).waiting_senders() == remove_first(old(self).waiting_senders(), c)
                    &&& final(self).items() == old(self).items()
                    &&& final(self).waiting_receivers() == old(self).waiting_receivers()
                    &&& *final(k) == *old(k)
                } else if old(self).items().len() < N {
                    &&& r == Ok::<(), IpcStatus>(())
                    &&& final(self).items() == old(self).items().push(msg)
                    &&& final(self).waiting_senders() == old(self).waiting_senders()
                    &&& wake_first(
                        old(self).waiting_receivers(),
                        final(self).waiting_receivers(),
                        *old(k),
                        *final(k),
                    )
                } else {
                    &&& r == Err::<(), IpcStatus>(IpcStatus::TimeOut)
                    &&& *final(self) == *old(self)
                    &&& *final(k) == *old(k)
                }
            }),
    {
        let status = k.wait_outcome(&mut self.senders);
        if status == IpcStatus::TimeOut {
            return Err(IpcStatus::TimeOut);
        }
        if !self.buffer.full() {
            self.buffer.push(msg);
            k.try_wake_up(&mut self.receivers);
            Ok(())
        } else {
            Err(IpcStatus::TimeOut)
        }
    }

    /// Receives a message. With one queued, the oldest is taken, the first
    /// waiting sender is woken and the receive is done. An empty queue with a
    /// timeout of 0 fails with `TimeOut`. Otherwise the running task registers
    /// as a receiver and sleeps up to `timeout` ticks: the result is `Wait`,
    /// and [`MsgQueue::recv_resume`] finishes once the task runs again.
    pub fn recv(&mut self, k: &mut Kernel, timeout: u32) -> (r: IpcStep<T>)
        requires
            old(self).wf(),
            old(k).wf(),
            old(self).items().len() == 0 && timeout != 0 ==> old(k).current is Some,
        ensures
            final(self).wf(),
            final(k).wf(),
            old(self).items().len() > 0 ==> {
                &&& r == IpcStep::Done(Ok::<T, IpcStatus>(old(self).items()[0]))
                &&& final(self).items() == old(self).items().drop_first()
                &&& final(self).waiting_receivers() == old(self).waiting_receivers()
                &&& wake_first(
                    old(self).waiting_senders(),
                    final(self).waiting_senders(),
                    *old(k),
                    *final(k),
                )
            },
            old(self).items().len() == 0 && timeout == 0 ==> {
                &&& r == IpcStep::Done(Err::<T, IpcStatus>(IpcStatus::TimeOut))
                &&& *final(self) == *old(self)
                &&& *final(k) == *old(k)
            },
            old(self).items().len() == 0 && timeout != 0 ==> {
                &&& r == IpcStep::<T>::Wait
                &&& final(self).items() == old(self).items()
                &&& final(self).waiting_senders() == old(self).waiting_senders()
                &&& wait_registered(
                    old(self).waiting_receivers(),
                    final(self).waiting_receivers(),
                    *old(k),
                    *final(k),
                    timeout,
                )
            },
    {
        match self.buffer.serve() {
            Some(msg) => {
                k.try_wake_up(&mut self.senders);
                return IpcStep::Done(Ok(msg));
            },
            None => {},
        }
        if k.wait_on(&mut self.receivers, timeout) {
            IpcStep::Wait
        } else {
            IpcStep::Done(Err(IpcStatus::TimeOut))
        }
    }

    /// Finishes a receive that waited: a timed-out receiver leaves the
    /// receivers list and fails with `TimeOut`; a woken receiver takes the
    /// oldest message (waking the first waiting sender) when there is one,
    /// else fails with `TimeOut`.
    pub fn recv_resume(&mut self, k: &mut Kernel) -> (r: Result<T, IpcStatus>)
        requires
            old(self).wf(),
            old(k).wf(),
            old(k).current is Some,
        ensures
            final(self).wf(),
            final(k).wf(),
            ({
                let c = old(k).current->Some_0;
                if old(self).waiting_receivers().contains(c) {
                    &&& r == Err::<T, IpcStatus>(IpcStatus::TimeOut)
                    &&& final(self).waiting_receivers() == remove_first(
                        old(self).waiting_receivers(),
                        c,
                    )
                    &&& final(self).items() == old(self).items()
                    &&& final(self).waiting_senders() == old(self).waiting_senders()
                    &&& *final(k) == *old(k)
                } else if old(self).items().len() > 0 {
                    &&& r == Ok::<T, IpcStatus>(old(self).items()[0])
                    &&& final(self).items() == old(self).items().drop_first()
                    &&& final(self).waiting_receivers() == old(self).waiting_receivers()
                    &&& wake_first(
                        old(self).waiting_senders(),
                        final(self).waiting_senders(),
                        *old(k),
                        *final(k),
                    )
                } else {
                    &&& r == Err::<T, IpcStatus>(IpcStatus::TimeOut)
                    &&& *final(self) == *old(self)
                    &&& *final(k) == *old(k)
                }
            }),
    {
        let status = k.wait_outcome(&mut self.receivers);
        if status == IpcStatus::TimeOut {
            return Err(IpcStatus::TimeOut);
        }
        match self.buffer.serve() {
            Some(msg) => {
                k.try_wake_up(&mut self.senders);
                Ok(msg)
            },
            None => Err(IpcStatus::TimeOut),
        }
    }
}

/// A task woken early from a message-queue wait is queued to run and is no
/// longer asleep, so its lapsed timeout cannot wake it a second time.
pub proof fn law_ipc_wake_not_asleep(pre: Kernel, post: Kernel, w: usize)
    requires
        pre.wf(),
        w < TASK_MAX,
        ipc_woken(pre, post, w),
        pre.sleeping_list@.no_duplicates(),
        pre.ready_list@.len() < TASK_MAX,
    ensures
        !post.sleeping_list@.contains(w),
        post.ready_list@.contains(w),
        post.tcbs@[w as int].status == TaskStatus::Ready,
{
    let sl = pre.sleeping_list@;
    if sl.contains(w) {
        lemma_first_index(sl, w);
        let fi = first_index(sl, w);
        assert forall|j: int| 0 <= j < post.sleeping_list@.len() implies post.sleeping_list@[j] != w by {
            if j < fi {
                assert(post.sleeping_list@[j] == sl[j]);
            } else {
                assert(post.sleeping_list@[j] == sl[j + 1]);
            }
        }
    }
    let tcbs = post.tcbs@;
    let before = prio_before(tcbs[w as int].priority, tcbs);
    lemma_first_true_bound(pre.ready_list@, before);
    let pos = first_true(pre.ready_list@, before);
    assert(post.ready_list@[pos] == w);
}

/// Waking a message-queue waiter early requests a context switch exactly
/// when the waiter is more urgent than the running task (an earlier request
/// stays); the priorities themselves do not change.
pub proof fn law_ipc_wake_preempts(pre: Kernel, post: Kernel, w: usize)
    requires
        pre.wf(),
        w < TASK_MAX,
        ipc_woken(pre, post, w),
    ensures
        post.yield_pending == (pre.yield_pending || (pre.current is Some
            && pre.tcbs@[w as int].priority < pre.tcbs@[pre.current->Some_0 as int].priority)),
        forall|i: int| 0 <= i < TASK_MAX ==> (#[trigger] post.tcbs@[i]).priority == pre.tcbs@[i].priority,
{
}

/// When a send or receive wakes the first waiter of a wait list and that
/// waiter is more urgent than the running task, the waiter is ready and
/// queued to run, and a context switch is requested.
pub proof fn law_wake_first_preempts(list: Seq<usize>, list2: Seq<usize>, pre: Kernel, post: Kernel)
    requires
        pre.wf(),
        ids_valid(list),
        list.len() > 0,
        pre.ready_list@.len() < TASK_MAX,
        pre.current is Some,
        pre.tcbs@[list[0] as int].priority < pre.tcbs@[pre.current->Some_0 as int].priority,
        wake_first(list, list2, pre, post),
    ensures
        post.yield_pending,
        post.tcbs@[list[0] as int].status == TaskStatus::Ready,
        post.ready_list@.contains(list[0]),
        list2 == list.drop_first(),
{
    let w = list[0];
    let tcbs = post.tcbs@;
    let before = prio_before(tcbs[w as int].priority, tcbs);
    lemma_first_true_bound(pre.ready_list@, before);
    let pos = first_true(pre.ready_list@, before);
    assert(post.ready_list@[pos] == w);
}

} // verus!
