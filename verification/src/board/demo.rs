//! On-target demonstrations: the priority-inheritance scenario (a low,
//! a medium and a high priority task contending for one mutex) and the
//! message-queue scenario (one consumer and several producers).

use vstd::prelude::*;
use crate::config::{PRI_MAX, PRI_MIN};
use crate::kernel::global::Kernel;
use crate::kernel::task::{Task, created};

verus! {

/// Priority of the high-priority task of the inheritance scenario.
pub const PRI_H: u8 = 1;

/// Priority of the medium-priority task of the inheritance scenario.
pub const PRI_M: u8 = 2;

/// Priority of the low-priority task of the inheritance scenario.
pub const PRI_L: u8 = 3;

/// Base priority of the message-queue scenario.
pub const MSGQ_BASE_PRI: u8 = 3;

/// Starts the inheritance scenario: creates its root task "pip_root" at the
/// lowest priority, entering at `root_entry`.
pub fn mutex_test(k: &mut Kernel, root_entry: u32, exit: u32) -> (r: Result<usize, &'static str>)
    requires
        old(k).wf(),
    ensures
        final(k).wf(),
        created(*old(k), *final(k), PRI_MIN, "pip_root", root_entry, exit, r),
{
    Task::create(k, PRI_MIN, "pip_root", root_entry, exit)
}

/// Root of the inheritance scenario: creates the high, medium and low
/// priority tasks "mtx/H", "mtx/M" and "mtx/L", in that order.
pub fn pip_test_root(k: &mut Kernel, h_entry: u32, m_entry: u32, l_entry: u32, exit: u32)
    requires
        old(k).wf(),
    ensures
        final(k).wf(),
        exists|k1: Kernel, k2: Kernel, r1: Result<usize, &'static str>, r2: Result<usize, &'static str>, r3: Result<usize, &'static str>|
            {
                &&& created(*old(k), k1, PRI_H, "mtx/H", h_entry, exit, r1)
                &&& created(k1, k2, PRI_M, "mtx/M", m_entry, exit, r2)
                &&& created(k2, *final(k), PRI_L, "mtx/L", l_entry, exit, r3)
            },
{
    let r1 = Task::create(k, PRI_H, "mtx/H", h_entry, exit);
    let ghost k1 = *k;
    let r2 = Task::create(k, PRI_M, "mtx/M", m_entry, exit);
    let ghost k2 = *k;
    let r3 = Task::create(k, PRI_L, "mtx/L", l_entry, exit);
    assert(created(*old(k), k1, PRI_H, "mtx/H", h_entry, exit, r1));
    assert(created(k1, k2, PRI_M, "mtx/M", m_entry, exit, r2));
    assert(created(k2, *k, PRI_L, "mtx/L", l_entry, exit, r3));
}

/// Starts the message-queue scenario: creates its launcher task
/// "msg_q/test" at the highest priority, entering at `launch_entry`.
pub fn msgq_test(k: &mut Kernel, launch_entry: u32, exit: u32) -> (r: Result<usize, &'static str>)
    requires
        old(k).wf(),
    ensures
        final(k).wf(),
        created(*old(k), *final(k), PRI_MAX, "msg_q/test", launch_entry, exit, r),
{
    Task::create(k, PRI_MAX, "msg_q/test", launch_entry, exit)
}

/// Launcher of the message-queue scenario: creates the consumer
/// "msg_q/recv" at the base priority, then one producer "msg_q/send" at each
/// priority from the base to twice the base.
pub fn msgq_launch(k: &mut Kernel, consumer_entry: u32, producer_entry: u32, exit: u32)
    requires
        old(k).wf(),
    ensures
        final(k).wf(),
        exists|ks: Seq<Kernel>, rs: Seq<Result<usize, &'static str>>|
            {
                &&& ks.len() == 6
                &&& rs.len() == 5
                &&& ks[0] == *old(k)
                &&& ks[5] == *final(k)
                &&& created(ks[0], ks[1], MSGQ_BASE_PRI, "msg_q/recv", consumer_entry, exit, rs[0])
                &&& forall|i: int|
                    1 <= i < 5 ==> created(
                        #[trigger] ks[i],
                        ks[i + 1],
                        (MSGQ_BASE_PRI + i - 1) as u8,
                        "msg_q/send",
                        producer_entry,
                        exit,
                        rs[i],
                    )
            },
{
    let r0 = Task::create(k, MSGQ_BASE_PRI, "msg_q/recv", consumer_entry, exit);
    let ghost mut ks: Seq<Kernel> = seq![*old(k), *k];
    let ghost mut rs: Seq<Result<usize, &'static str>> = seq![r0];
    let mut p: u8 = MSGQ_BASE_PRI;
    while p <= MSGQ_BASE_PRI * 2
        invariant
            k.wf(),
            MSGQ_BASE_PRI <= p <= MSGQ_BASE_PRI * 2 + 1,
            ks.len() == p - MSGQ_BASE_PRI + 2,
            rs.len() == ks.len() - 1,
            ks[0] == *old(k),
            ks.last() == *k,
            created(ks[0], ks[1], MSGQ_BASE_PRI, "msg_q/recv", consumer_entry, exit, rs[0]),
            forall|i: int|
                1 <= i < ks.len() - 1 ==> created(
                    #[trigger] ks[i],
                    ks[i + 1],
                    (MSGQ_BASE_PRI + i - 1) as u8,
                    "msg_q/send",
                    producer_entry,
                    exit,
                    rs[i],
                ),
        decreases MSGQ_BASE_PRI * 2 + 1 - p,
    {
        let ghost before = *k;
        let r = Task::create(k, p, "msg_q/send", producer_entry, exit);
        proof {
            let i = ks.len() - 1;
            assert(created(before, *k, (MSGQ_BASE_PRI + i - 1) as u8, "msg_q/send", producer_entry, exit, r));
            ks = ks.push(*k);
            rs = rs.push(r);
        }
        p = p + 1;
    }
}

} // verus!
