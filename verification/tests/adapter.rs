use mos::board::rtos_adapter::MosScheduler;
use mos::kernel::global::Kernel;
use mos::kernel::sched::Scheduler;
use mos::kernel::tcb::{TaskStatus, CONTEXT_WORDS};

#[test]
fn blob_task_params_by_requested_stack() {
    let p = MosScheduler::task_params(100);
    assert_eq!((p.stack_size, p.priority, p.name), (4096, 2, "blob/ctrl"));
    let p = MosScheduler::task_params(5000);
    assert_eq!((p.stack_size, p.priority, p.name), (5000, 2, "blob/ctrl"));
    let p = MosScheduler::task_params(8192);
    assert_eq!((p.stack_size, p.priority, p.name), (8192, 4, "blob/tmr"));
    let p = MosScheduler::task_params(12000);
    assert_eq!((p.stack_size, p.priority, p.name), (12000, 4, "blob/tmr"));
}

#[test]
fn blob_task_create_and_delete() {
    let s = MosScheduler;
    let mut k = Kernel::new(0x4080_0000);
    let size = MosScheduler::task_params(8192).stack_size;
    let mut stack = vec![0u32; size / 4];
    let addr: u32 = 0x5000_0000;
    let t = s.task_create(&mut k, 0x1234, 7, 8192, &mut stack, addr, 0x42).unwrap();
    assert_eq!(t, 0);
    assert_eq!(k.tcbs[0].priority, 4);
    assert_eq!(k.tcbs[0].name, "blob/tmr");
    assert_eq!(k.tcbs[0].status, TaskStatus::Ready);
    assert_eq!(k.tcbs[0].heap_stack_base, addr);
    assert_eq!(k.tcbs[0].sp, addr + 4 * (2048 - CONTEXT_WORDS as u32));

    let mut small = vec![0u32; 1024];
    let t2 = s.task_create(&mut k, 0x1234, 0, 10, &mut small, addr + 0x4000, 0x42).unwrap();
    assert_eq!(t2, 1);
    assert_eq!(k.tcbs[1].priority, 2);
    assert_eq!(k.tcbs[1].name, "blob/ctrl");
    // The ready list is ordered by priority.
    assert_eq!(k.ready_list.iter().copied().collect::<Vec<_>>(), vec![1, 0]);

    assert!(!s.schedule_task_deletion(&mut k, 99));
    assert!(s.schedule_task_deletion(&mut k, 1));
    assert_eq!(k.tcbs[1].status, TaskStatus::Terminated);
    assert_eq!(k.ready_list.iter().copied().collect::<Vec<_>>(), vec![0]);
    assert!(k.yield_pending);
}

#[test]
fn blob_current_task_and_yield() {
    let s = MosScheduler;
    let mut k = Kernel::new(0x4080_0000);
    assert_eq!(s.current_task(&k), None);
    s.yield_task(&mut k);
    assert!(!k.yield_pending);
    let first = Scheduler::launch(&mut k, 0x100, 0x200).unwrap();
    assert_eq!(s.current_task(&k), Some(first));
    s.yield_task(&mut k);
    assert!(k.yield_pending);
}
