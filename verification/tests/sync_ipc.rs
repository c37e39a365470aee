use mos::kernel::async_rt::{AsyncRuntime, TaskPool};
use mos::config::PRI_INV;
use mos::kernel::global::Kernel;
use mos::kernel::ipc::{IpcStatus, IpcStep, MsgQueue};
use mos::kernel::sched::Scheduler;
use mos::kernel::sync::{Barrier, BarrierState, BarrierStep, CondVar, Mutex, Sema};
use mos::kernel::task::Task;
use mos::kernel::tcb::TaskStatus;

fn ids(l: &mos::kernel::list::TaskList) -> Vec<usize> {
    l.iter().copied().collect()
}

/// A kernel running task `a` (priority 5) with tasks `b` (3) and `c` (7)
/// ready, plus the idle task.
fn setup() -> (Kernel, usize, usize, usize) {
    let mut k = Kernel::new(0x2000_0000);
    let a = Task::create(&mut k, 5, "a", 0x100, 0x200).unwrap();
    Scheduler::launch(&mut k, 0x300, 0x200).unwrap();
    let b = Task::create(&mut k, 3, "b", 0x100, 0x200).unwrap();
    let c = Task::create(&mut k, 7, "c", 0x100, 0x200).unwrap();
    k.take_yield();
    (k, a, b, c)
}

#[test]
fn sema_down_blocks_when_exhausted() {
    let (mut k, a, _b, _c) = setup();
    let mut s = Sema::new(1);
    s.down(&mut k);
    assert_eq!(s.count(), 0);
    assert!(!k.yield_pending);
    s.down(&mut k);
    assert_eq!(s.count(), -1);
    assert_eq!(k.tcbs[a].status, TaskStatus::Blocked);
    assert!(!ids(&k.ready_list).contains(&a));
    assert!(k.take_yield());
    s.up(&mut k);
    assert_eq!(s.count(), 0);
    assert_eq!(k.tcbs[a].status, TaskStatus::Ready);
    assert!(ids(&k.ready_list).contains(&a));
}

#[test]
fn sema_try_down_and_isr_up() {
    let (mut k, _a, _b, _c) = setup();
    let mut s = Sema::new(0);
    assert!(!s.try_down());
    s.up_from_isr(&mut k);
    assert_eq!(s.count(), 1);
    assert!(s.try_down());
    assert_eq!(s.count(), 0);
    assert!(!k.yield_pending);
}

#[test]
fn sema_down_timeout_paths() {
    let (mut k, a, _b, _c) = setup();
    let mut s = Sema::new(1);
    assert_eq!(s.down_timeout(&mut k, 10), Some(true));
    assert_eq!(s.down_timeout(&mut k, 0), Some(false));
    k.os_ticks = 100;
    assert_eq!(s.down_timeout(&mut k, 10), None);
    assert_eq!(k.tcbs[a].wake_point, 110);
    assert_eq!(ids(&k.sleeping_list), vec![a]);
    assert_eq!(s.count(), -1);
    // Timed out: still waiting.
    assert!(!s.down_timeout_resume(&k));
    assert_eq!(s.count(), 0);
    // Handed a unit by `up` before the timeout.
    assert_eq!(s.down_timeout(&mut k, 10), None);
    s.up(&mut k);
    assert!(s.down_timeout_resume(&k));
    assert_eq!(s.count(), 0);
}

#[test]
fn mutex_recursive_and_handover() {
    let (mut k, a, b, _c) = setup();
    let mut m = Mutex::new(41u32);
    m.lock(&mut k);
    m.lock(&mut k);
    assert!(!k.yield_pending);
    m.set_data(*m.data() + 1);
    assert_eq!(*m.data(), 42);
    m.unlock(&mut k);
    m.unlock(&mut k);
    // The most urgent ready task (b) preempts once the mutex is released.
    assert!(k.take_yield());
    m.lock(&mut k);
    // b runs and contends: a inherits b's priority.
    k.current = Some(b);
    m.lock(&mut k);
    assert_eq!(k.tcbs[a].priority, 3);
    assert_eq!(k.tcbs[a].sub_priority, 5);
    assert_eq!(k.tcbs[b].status, TaskStatus::Blocked);
    // a runs again and releases: priority restored, b owns the mutex.
    k.current = Some(a);
    m.unlock(&mut k);
    assert_eq!(k.tcbs[a].priority, 5);
    assert_eq!(k.tcbs[a].sub_priority, PRI_INV);
    assert_eq!(k.tcbs[b].status, TaskStatus::Ready);
    assert!(k.take_yield());
}

#[test]
fn priority_inheritance_requeues_ready_owner() {
    let (mut k, _a, b, c) = setup();
    let mut m = Mutex::new(());
    k.current = Some(c);
    m.lock(&mut k);
    k.current = Some(b);
    m.lock(&mut k);
    assert_eq!(k.tcbs[c].priority, 3);
    assert_eq!(ids(&k.ready_list)[0], c);
}

#[test]
fn condvar_wait_and_notify() {
    let (mut k, a, b, _c) = setup();
    let mut m = Mutex::new(0u32);
    let mut cv = CondVar::new();
    m.lock(&mut k);
    cv.wait(&mut k, &mut m);
    assert_eq!(k.tcbs[a].status, TaskStatus::Blocked);
    assert!(k.take_yield());
    k.current = Some(b);
    cv.notify(&mut k);
    assert_eq!(k.tcbs[a].status, TaskStatus::Ready);
    assert!(k.take_yield());
    cv.notify(&mut k);
    assert!(!k.yield_pending);
    cv.notify_all(&mut k);
    assert!(!k.yield_pending);
}

#[test]
fn condvar_notify_all_wakes_everyone() {
    let (mut k, a, b, c) = setup();
    let mut m = Mutex::new(());
    let mut cv = CondVar::new();
    for t in [a, b] {
        k.current = Some(t);
        m.lock(&mut k);
        cv.wait(&mut k, &mut m);
    }
    k.current = Some(c);
    k.take_yield();
    cv.notify_all(&mut k);
    assert_eq!(k.tcbs[a].status, TaskStatus::Ready);
    assert_eq!(k.tcbs[b].status, TaskStatus::Ready);
    assert!(k.yield_pending);
}

#[test]
fn barrier_generation() {
    let bar = Barrier::new(3);
    assert_eq!(bar.total, 3);
    let mut st = BarrierState { count: 0, generation: 0 };
    assert!(!st.arrive(3));
    assert!(!st.arrive(3));
    assert!(st.arrive(3));
    assert_eq!(st.count, 0);
    assert!(st.passed(0));
    let mut w = BarrierState { count: 0, generation: u32::MAX };
    assert!(w.arrive(1));
    assert_eq!(w.generation, 0);
}

#[test]
fn msgq_fifo_and_timeouts() {
    let (mut k, a, _b, _c) = setup();
    let mut q: MsgQueue<u32, 2> = MsgQueue::new();
    assert!(matches!(q.recv(&mut k, 0), IpcStep::Done(Err(IpcStatus::TimeOut))));
    assert!(matches!(q.send(&mut k, 1, 0), IpcStep::Done(Ok(()))));
    assert!(matches!(q.send(&mut k, 2, 0), IpcStep::Done(Ok(()))));
    assert!(matches!(q.send(&mut k, 3, 0), IpcStep::Done(Err(IpcStatus::TimeOut))));
    assert!(matches!(q.recv(&mut k, 5), IpcStep::Done(Ok(1))));
    assert!(matches!(q.recv(&mut k, 5), IpcStep::Done(Ok(2))));
    // Empty: the receiver waits.
    k.os_ticks = 7;
    assert!(matches!(q.recv(&mut k, 5), IpcStep::Wait));
    assert_eq!(k.tcbs[a].wake_point, 12);
    assert_eq!(k.tcbs[a].status, TaskStatus::Blocked);
    // Timed out.
    assert_eq!(q.recv_resume(&mut k), Err(IpcStatus::TimeOut));
}

#[test]
fn msgq_sender_wakes_waiting_receiver() {
    let (mut k, a, b, _c) = setup();
    let mut q: MsgQueue<u32, 2> = MsgQueue::new();
    assert!(matches!(q.recv(&mut k, 50), IpcStep::Wait));
    k.current = Some(b);
    assert!(matches!(q.send(&mut k, 9, 0), IpcStep::Done(Ok(()))));
    assert_eq!(k.tcbs[a].status, TaskStatus::Ready);
    assert_eq!(k.tcbs[a].wake_point, 0xFFFF_FFFF);
    assert!(k.sleeping_list.is_empty());
    k.current = Some(a);
    assert_eq!(q.recv_resume(&mut k), Ok(9));
    assert_eq!(IpcStatus::Success, IpcStatus::Success);
}

#[test]
fn msgq_sender_waits_when_full() {
    let (mut k, a, b, _c) = setup();
    let mut q: MsgQueue<u8, 1> = MsgQueue::new();
    assert!(matches!(q.send(&mut k, 1, 0), IpcStep::Done(Ok(()))));
    assert!(matches!(q.send(&mut k, 2, 10), IpcStep::Wait));
    k.current = Some(b);
    assert!(matches!(q.recv(&mut k, 0), IpcStep::Done(Ok(1))));
    assert_eq!(k.tcbs[a].status, TaskStatus::Ready);
    k.current = Some(a);
    assert_eq!(q.send_resume(&mut k, 2), Ok(()));
    assert!(matches!(q.recv(&mut k, 0), IpcStep::Done(Ok(2))));
}

#[test]
fn barrier_wait_two_tasks() {
    let (mut k, a, b, _c) = setup();
    let mut bar = Barrier::new(2);
    // Task a arrives first and waits.
    bar.mutex.lock(&mut k);
    let my_gen = match bar.arrive(&mut k) {
        BarrierStep::Wait(g) => g,
        BarrierStep::Passed => panic!("first arrival passed"),
    };
    assert_eq!(my_gen, 0);
    assert_eq!(bar.mutex.data().count, 1);
    bar.cv.wait(&mut k, &mut bar.mutex);
    assert_eq!(k.tcbs[a].status, TaskStatus::Blocked);
    assert!(k.take_yield());
    // Task b runs and arrives last: the barrier opens and a is woken.
    k.next_tcb();
    assert_eq!(k.current, Some(b));
    bar.mutex.lock(&mut k);
    assert!(matches!(bar.arrive(&mut k), BarrierStep::Passed));
    assert_eq!(bar.mutex.data().count, 0);
    assert_eq!(bar.mutex.data().generation, 1);
    assert_eq!(k.tcbs[a].status, TaskStatus::Ready);
    assert!(ids(&k.ready_list).contains(&a));
    assert!(k.take_yield());
    // Task a runs again, takes the mutex back and sees the new generation.
    k.current = Some(a);
    bar.mutex.lock(&mut k);
    assert!(bar.recheck(&mut k, my_gen));
    // A stale check of the current generation keeps waiting.
    bar.mutex.lock(&mut k);
    assert!(!bar.recheck(&mut k, 1));
}

#[test]
fn sema_up_cancels_pending_timeout() {
    let (mut k, a, _b, _c) = setup();
    let mut s = Sema::new(0);
    k.os_ticks = 40;
    assert_eq!(s.down_timeout(&mut k, 25), None);
    assert_eq!(k.tcbs[a].wake_point, 65);
    assert_eq!(ids(&k.sleeping_list), vec![a]);
    s.up(&mut k);
    // Handed the unit: no longer asleep, ready again.
    assert!(ids(&k.sleeping_list).is_empty());
    assert_eq!(k.tcbs[a].wake_point, 0);
    assert_eq!(k.tcbs[a].status, TaskStatus::Ready);
    assert_eq!(ids(&k.ready_list).iter().filter(|&&t| t == a).count(), 1);
    assert!(s.down_timeout_resume(&k));
}

#[test]
fn terminated_waiter_is_queued_again_by_up() {
    // Terminating a task leaves it in the wait queues of semaphores (only the
    // kernel's lists are cleaned); a later `up` hands the unit to that freed
    // slot and queues it, and a new task created in the same slot is queued
    // as well, so the slot appears twice in the ready list.
    let (mut k, a, _b, _c) = setup();
    let mut s = Sema::new(0);
    s.down(&mut k);
    assert_eq!(k.tcbs[a].status, TaskStatus::Blocked);
    Task::terminate(&mut k, a);
    assert_eq!(k.tid_bitmap & (1 << a), 0);
    s.up(&mut k);
    assert_eq!(k.tcbs[a].status, TaskStatus::Ready);
    let d = Task::create(&mut k, 4, "d", 0x100, 0x200).unwrap();
    assert_eq!(d, a);
    assert_eq!(ids(&k.ready_list).iter().filter(|&&t| t == a).count(), 2);
}

#[test]
fn unlock_restores_priority_without_requeueing() {
    // A ready owner that inherits a more urgent priority moves ahead in the
    // ready list; when it releases the mutex its own priority comes back but
    // it keeps its place, so the ready list is no longer in priority order
    // until it is requeued at the next scheduling point.
    let mut k = Kernel::new(0x2000_0000);
    let a = Task::create(&mut k, 5, "a", 0x100, 0x200).unwrap();
    Scheduler::launch(&mut k, 0x300, 0x200).unwrap();
    let idle = 1;
    let d = Task::create(&mut k, 4, "d", 0x100, 0x200).unwrap();
    let mut m = Mutex::new(0u8);
    m.lock(&mut k);
    let b = Task::create(&mut k, 3, "b", 0x100, 0x200).unwrap();
    k.next_tcb();
    assert_eq!(k.current, Some(b));
    assert_eq!(k.tcbs[a].status, TaskStatus::Ready);
    m.lock(&mut k);
    assert_eq!(k.tcbs[a].priority, 3);
    assert_eq!(ids(&k.ready_list), vec![a, d, idle]);
    k.next_tcb();
    assert_eq!(k.current, Some(a));
    m.unlock(&mut k);
    assert_eq!(k.tcbs[a].priority, 5);
    assert_eq!(ids(&k.ready_list), vec![b, a, d, idle]);
    assert!(k.tcbs[a].priority > k.tcbs[d].priority);
}

#[test]
fn async_spawn_starts_executor_once() {
    let mut k = Kernel::new(0x2000_0000);
    let mut started = false;
    let mut pool = TaskPool::new();
    assert_eq!(AsyncRuntime::spawn(&mut k, &mut started, &mut pool, 0x500, 0x200), Some(0));
    assert!(started);
    assert_eq!(Task::find_tid(&k, "async/exec"), Some(0));
    assert_eq!(k.tcbs[0].priority, 1);
    assert_eq!(AsyncRuntime::spawn(&mut k, &mut started, &mut pool, 0x500, 0x200), Some(1));
    // The executor task was created once.
    assert_eq!(k.tid_bitmap, 1);
    assert!(pool.begin_poll(1));
}
