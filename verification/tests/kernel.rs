use mos::config::{PRI_INV, PRI_MIN, TASK_MAX, TIME_SLICE};
use mos::kernel::global::Kernel;
use mos::kernel::sched::Scheduler;
use mos::kernel::task::Task;
use mos::kernel::tcb::{init_stack_frame_raw, TaskStatus, Tcb, CONTEXT_WORDS};
use mos::kernel::list::TaskList;

fn ids(l: &TaskList) -> Vec<usize> {
    l.iter().copied().collect()
}

#[test]
fn empty_tcb_defaults() {
    let t = Tcb::empty(3);
    assert_eq!(t.tid, 3);
    assert_eq!(t.status, TaskStatus::Terminated);
    assert_eq!(t.priority, PRI_MIN);
    assert_eq!(t.sub_priority, PRI_INV);
    assert_eq!(t.time_slice, TIME_SLICE);
    assert!(!t.is_sleeping());
    assert_eq!(t.status.as_str(), "Dead");
    assert_eq!(TaskStatus::Ready.as_str(), "Ready");
}

#[test]
fn stack_frame_layout() {
    let mut stack = vec![7u32; 40];
    let sp = init_stack_frame_raw(&mut stack, 0x1000, 0xAAAA, 0x55, 0xBBBB);
    assert_eq!(sp, 0x1000 + 4 * (40 - CONTEXT_WORDS as u32));
    let base = 40 - CONTEXT_WORDS;
    assert_eq!(stack[base - 1], 7);
    assert_eq!(stack[base], 0xAAAA);
    assert_eq!(stack[base + 1], 0xBBBB);
    assert_eq!(stack[base + 9], 0x55);
    assert_eq!(stack[base + 31], 0x1888);
    assert_eq!(stack[base + 2], 0);
}

#[test]
fn task_list_order_and_removal() {
    let mut l = TaskList::new();
    assert_eq!(l.pop_front(), None);
    l.push_back(4).unwrap();
    l.push_back(2).unwrap();
    l.push_back(4).unwrap();
    l.remove(4);
    assert_eq!(ids(&l), vec![2, 4]);
    l.remove(9);
    assert_eq!(ids(&l), vec![2, 4]);
    l.insert_in_order(7, |t| t == 4).unwrap();
    assert_eq!(ids(&l), vec![2, 7, 4]);
    l.insert_in_order(8, |_| false).unwrap();
    assert_eq!(ids(&l), vec![2, 7, 4, 8]);
    assert_eq!(l.front(), Some(2));
    assert!(l.contains(8));
    assert_eq!(l.pop_front(), Some(2));
    assert_eq!(l.len(), 3);
}

#[test]
fn task_list_full_hands_back() {
    let mut l = TaskList::new();
    for i in 0..TASK_MAX {
        l.push_back(i).unwrap();
    }
    assert_eq!(l.push_back(99), Err(99));
    assert_eq!(l.insert_in_order(99, |_| true), Err(99));
    assert_eq!(l.len(), TASK_MAX);
}

#[test]
fn alloc_picks_lowest_free_and_free_releases() {
    let mut k = Kernel::new(0x2000_0000);
    assert_eq!(k.alloc_tid(), Some(0));
    assert_eq!(k.alloc_tid(), Some(1));
    assert_eq!(k.alloc_tid(), Some(2));
    k.free_tid(1);
    assert_eq!(k.tcbs[1].status, TaskStatus::Terminated);
    assert_eq!(k.alloc_tid(), Some(1));
    k.free_tid(100);
    assert_eq!(k.tid_bitmap, 0b111);
}

#[test]
fn pool_full_error() {
    let mut k = Kernel::new(0x2000_0000);
    for _ in 0..TASK_MAX {
        Task::create(&mut k, 5, "t", 0x100, 0x200).unwrap();
    }
    assert_eq!(Task::create(&mut k, 5, "t", 0x100, 0x200), Err("Task pool is full"));
    assert_eq!(k.alloc_tid(), None);
}

#[test]
fn ready_list_sorted_by_priority_fifo_among_equals() {
    let mut k = Kernel::new(0x2000_0000);
    let a = Task::create(&mut k, 5, "a", 0x100, 0x200).unwrap();
    let b = Task::create(&mut k, 3, "b", 0x100, 0x200).unwrap();
    let c = Task::create(&mut k, 5, "c", 0x100, 0x200).unwrap();
    let d = Task::create(&mut k, 9, "d", 0x100, 0x200).unwrap();
    assert_eq!(ids(&k.ready_list), vec![b, a, c, d]);
    assert_eq!(k.tcbs[a].status, TaskStatus::Ready);
    assert_eq!(k.tcbs[a].stack_bottom, 0x2000_0000);
    assert_eq!(k.tcbs[b].stack_bottom, 0x2000_0000 + 1024);
    assert_eq!(k.tcbs[b].sp, 0x2000_0000 + 1024 + 4 * (256 - 32));
    assert_eq!(k.stacks[b][256 - 32], 0x100);
    assert!(!k.yield_pending);
}

#[test]
fn launch_runs_most_urgent_and_preemption_requested() {
    let mut k = Kernel::new(0x2000_0000);
    let a = Task::create(&mut k, 5, "a", 0x100, 0x200).unwrap();
    let first = Scheduler::launch(&mut k, 0x300, 0x200).unwrap();
    assert_eq!(first, a);
    assert!(k.sched_ready);
    assert_eq!(k.current, Some(a));
    assert_eq!(k.tcbs[a].status, TaskStatus::Running);
    assert_eq!(Task::find_tid(&k, "idle"), Some(1));
    let h = Task::create(&mut k, 2, "h", 0x100, 0x200).unwrap();
    assert!(k.take_yield());
    assert!(!k.yield_pending);
    k.next_tcb();
    assert_eq!(k.current, Some(h));
    assert_eq!(k.tcbs[h].status, TaskStatus::Running);
    assert_eq!(k.tcbs[a].status, TaskStatus::Ready);
}

#[test]
fn find_tid_by_name() {
    let mut k = Kernel::new(0x2000_0000);
    Task::create(&mut k, 5, "shell", 0x100, 0x200).unwrap();
    let l = Task::create(&mut k, 5, "lcd", 0x100, 0x200).unwrap();
    assert_eq!(Task::find_tid(&k, "lcd"), Some(l));
    assert_eq!(Task::find_tid(&k, "nope"), None);
    Task::terminate(&mut k, l);
    assert_eq!(Task::find_tid(&k, "lcd"), None);
}

#[test]
fn block_resume_terminate() {
    let mut k = Kernel::new(0x2000_0000);
    let a = Task::create(&mut k, 5, "a", 0x100, 0x200).unwrap();
    let b = Task::create(&mut k, 6, "b", 0x100, 0x200).unwrap();
    Scheduler::launch(&mut k, 0x300, 0x200).unwrap();
    Task::block(&mut k, b);
    assert_eq!(k.tcbs[b].status, TaskStatus::Blocked);
    assert_eq!(ids(&k.blocked_list), vec![b]);
    assert!(!ids(&k.ready_list).contains(&b));
    assert!(k.take_yield());
    Task::block(&mut k, b);
    assert_eq!(ids(&k.blocked_list), vec![b]);
    assert!(!k.yield_pending);
    Task::resume(&mut k, b);
    assert_eq!(k.tcbs[b].status, TaskStatus::Ready);
    assert!(k.blocked_list.is_empty());
    assert!(!k.yield_pending);
    Task::terminate(&mut k, a);
    assert_eq!(k.tcbs[a].status, TaskStatus::Terminated);
    assert!(!ids(&k.ready_list).contains(&a));
    assert_eq!(k.tid_bitmap & 1, 0);
    assert!(k.take_yield());
    Task::terminate(&mut k, a);
    assert!(!k.yield_pending);
}

#[test]
fn delay_and_wake_up() {
    let mut k = Kernel::new(0x2000_0000);
    let a = Task::create(&mut k, 5, "a", 0x100, 0x200).unwrap();
    let first = Scheduler::launch(&mut k, 0x300, 0x200).unwrap();
    assert_eq!(first, a);
    Task::delay(&mut k, 0);
    assert!(!k.yield_pending);
    k.os_ticks = 10;
    Task::delay(&mut k, 5);
    assert_eq!(k.tcbs[a].wake_point, 15);
    assert_eq!(k.tcbs[a].status, TaskStatus::Blocked);
    assert!(k.tcbs[a].is_sleeping());
    assert_eq!(ids(&k.sleeping_list), vec![a]);
    k.next_tcb();
    assert_eq!(k.current, Some(1));
    k.os_ticks = 14;
    k.wake_up_sleepers();
    assert_eq!(ids(&k.sleeping_list), vec![a]);
    k.os_ticks = 15;
    k.wake_up_sleepers();
    assert!(k.sleeping_list.is_empty());
    assert_eq!(k.tcbs[a].status, TaskStatus::Ready);
    assert_eq!(k.tcbs[a].wake_point, 0);
    assert_eq!(ids(&k.ready_list)[0], a);
}

#[test]
fn delay_wraps_tick_counter() {
    let mut k = Kernel::new(0x2000_0000);
    Task::create(&mut k, 5, "a", 0x100, 0x200).unwrap();
    Scheduler::launch(&mut k, 0x300, 0x200).unwrap();
    k.set_os_ticks(u32::MAX - 1);
    Task::delay(&mut k, 3);
    assert_eq!(k.tcbs[0].wake_point, 1);
}

#[test]
fn systick_counts_down_slice() {
    let mut k = Kernel::new(0x2000_0000);
    assert_eq!(k.systick_tick(), 0);
    assert_eq!(k.os_ticks(), 0);
    Task::create(&mut k, 5, "a", 0x100, 0x200).unwrap();
    Scheduler::launch(&mut k, 0x300, 0x200).unwrap();
    for _ in 0..(TIME_SLICE - 1) {
        assert_eq!(k.systick_tick(), 0);
    }
    assert_eq!(k.systick_tick(), 1);
    assert_eq!(k.tcbs[0].time_slice, 0);
    assert_eq!(k.os_ticks, TIME_SLICE);
    k.set_os_ticks(u32::MAX);
    k.systick_tick();
    assert_eq!(k.os_ticks, 0);
}

#[test]
fn time_slice_round_robin_among_equals() {
    let mut k = Kernel::new(0x2000_0000);
    let a = Task::create(&mut k, 5, "a", 0x100, 0x200).unwrap();
    let b = Task::create(&mut k, 5, "b", 0x100, 0x200).unwrap();
    Scheduler::launch(&mut k, 0x300, 0x200).unwrap();
    assert_eq!(k.current, Some(a));
    for _ in 0..TIME_SLICE {
        k.systick_tick();
    }
    k.next_tcb();
    assert_eq!(k.current, Some(b));
    assert_eq!(k.tcbs[a].time_slice, TIME_SLICE);
    assert_eq!(ids(&k.ready_list), vec![b, a, 2]);
}

#[test]
fn schedule_prepare_leaves_no_ready_task() {
    let mut k = Kernel::new(0x2000_0000);
    let a = Task::create(&mut k, 5, "a", 0x100, 0x200).unwrap();
    k.current = Some(a);
    k.tcbs[a].status = TaskStatus::Blocked;
    // The blocked running task leaves the ready list; nothing is left to run,
    // so no switch may follow.
    k.schedule_prepare();
    assert!(k.ready_list.is_empty());
    assert_eq!(k.current, Some(a));
}

#[test]
fn switch_to_front_runs_the_front() {
    let mut k = Kernel::new(0x2000_0000);
    let a = Task::create(&mut k, 5, "a", 0x100, 0x200).unwrap();
    let b = Task::create(&mut k, 3, "b", 0x100, 0x200).unwrap();
    k.current = Some(a);
    k.tcbs[a].status = TaskStatus::Running;
    k.switch_to_front();
    assert_eq!(k.current, Some(b));
    assert_eq!(k.tcbs[b].status, TaskStatus::Running);
    assert_eq!(k.tcbs[a].status, TaskStatus::Ready);
}

#[test]
fn exit_current_releases_slot() {
    let mut k = Kernel::new(0x2000_0000);
    let a = Task::create(&mut k, 5, "a", 0x100, 0x200).unwrap();
    Scheduler::launch(&mut k, 0x300, 0x200).unwrap();
    Task::exit_current(&mut k);
    assert_eq!(k.tcbs[a].status, TaskStatus::Terminated);
    assert!(k.yield_pending);
    assert_eq!(k.alloc_tid(), Some(a));
}

#[test]
fn create_raw_uses_given_stack() {
    let mut k = Kernel::new(0x2000_0000);
    let mut stack = vec![0u32; 64];
    let t = Task::create_raw(&mut k, 0x4200_0000, 9, 4, "blob", 0x200, &mut stack, 0x3000_0000).unwrap();
    assert_eq!(k.tcbs[t].heap_stack_base, 0x3000_0000);
    assert_eq!(k.tcbs[t].sp, 0x3000_0000 + 4 * 32);
    assert_eq!(stack[32], 0x4200_0000);
    assert_eq!(stack[32 + 9], 9);
    assert!(!k.yield_pending);
}

#[test]
fn isr_yield_request() {
    let mut k = Kernel::new(0x2000_0000);
    k.yield_task_from_isr();
    assert!(k.yield_from_isr);
}

#[test]
fn woken_urgent_sleeper_runs_next() {
    let mut k = Kernel::new(0x2000_0000);
    let h = Task::create(&mut k, 2, "h", 0x100, 0x200).unwrap();
    let m = Task::create(&mut k, 5, "m", 0x100, 0x200).unwrap();
    let l = Task::create(&mut k, 9, "l", 0x100, 0x200).unwrap();
    Scheduler::launch(&mut k, 0x300, 0x200).unwrap();
    assert_eq!(k.current, Some(h));
    // The most urgent task sleeps; the next most urgent runs.
    Task::delay(&mut k, 4);
    k.next_tcb();
    assert_eq!(k.current, Some(m));
    // Its wake-up time comes: at the next scheduling point it runs again,
    // ahead of every other ready task.
    k.os_ticks = 4;
    k.next_tcb();
    assert_eq!(k.current, Some(h));
    let r = ids(&k.ready_list);
    assert_eq!(r[0], h);
    for w in r.windows(2) {
        assert!(k.tcbs[w[0]].priority <= k.tcbs[w[1]].priority);
    }
    assert!(r.contains(&m) && r.contains(&l));
}

#[test]
fn delay_across_tick_wrap_waits_full_length() {
    let mut k = Kernel::new(0x2000_0000);
    let a = Task::create(&mut k, 5, "a", 0x100, 0x200).unwrap();
    Scheduler::launch(&mut k, 0x300, 0x200).unwrap();
    k.set_os_ticks(0xFFFF_FFF0);
    Task::delay(&mut k, 0x20);
    assert_eq!(k.tcbs[a].wake_point, 0x10);
    k.next_tcb();
    // One tick later: not yet due.
    k.set_os_ticks(0xFFFF_FFF1);
    k.wake_up_sleepers();
    assert_eq!(ids(&k.sleeping_list), vec![a]);
    k.set_os_ticks(0x0F);
    k.wake_up_sleepers();
    assert_eq!(ids(&k.sleeping_list), vec![a]);
    // 0x20 ticks after going to sleep: due.
    k.set_os_ticks(0x10);
    k.wake_up_sleepers();
    assert!(k.sleeping_list.is_empty());
    assert_eq!(k.tcbs[a].status, TaskStatus::Ready);
}

#[test]
fn long_delay_sleeps_its_full_length() {
    let mut k = Kernel::new(0x2000_0000);
    let a = Task::create(&mut k, 5, "a", 0x100, 0x200).unwrap();
    Scheduler::launch(&mut k, 0x300, 0x200).unwrap();
    Task::delay(&mut k, 0x8000_0005);
    assert_eq!(k.tcbs[a].wake_point, 0x8000_0005);
    assert_eq!(k.tcbs[a].sleep_start, 0);
    k.set_os_ticks(3);
    k.wake_up_sleepers();
    assert_eq!(ids(&k.sleeping_list), vec![a]);
    k.set_os_ticks(0x8000_0004);
    k.wake_up_sleepers();
    assert_eq!(ids(&k.sleeping_list), vec![a]);
    k.set_os_ticks(0x8000_0005);
    k.wake_up_sleepers();
    assert!(k.sleeping_list.is_empty());
    assert_eq!(k.tcbs[a].status, TaskStatus::Ready);
}
