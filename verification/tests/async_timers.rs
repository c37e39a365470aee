use mos::config::ASYNC_POOL_MAX;
use mos::kernel::async_rt::{AsyncRuntime, TaskPool, TaskSlot, TimerEntry, TimerQueue};
use mos::kernel::global::Kernel;

#[test]
fn timer_heap_pops_earliest_first() {
    let mut q = TimerQueue::new();
    for (i, t) in [50u32, 10, 40, 20, 30].iter().enumerate() {
        q.push(TimerEntry { wake_tick: *t, slot: i });
    }
    assert_eq!(q.len(), 5);
    let mut out = Vec::new();
    while q.len() > 0 {
        out.push(q.pop_front().wake_tick);
    }
    assert_eq!(out, vec![10, 20, 30, 40, 50]);
}

#[test]
fn timer_heap_orders_across_wraparound() {
    let mut q = TimerQueue::new();
    q.push(TimerEntry { wake_tick: 5, slot: 0 });
    q.push(TimerEntry { wake_tick: u32::MAX - 5, slot: 1 });
    assert_eq!(q.pop_front().wake_tick, u32::MAX - 5);
    assert_eq!(q.pop_front().wake_tick, 5);
}

#[test]
fn timer_heap_full_drops() {
    let mut q = TimerQueue::new();
    for i in 0..(ASYNC_POOL_MAX + 2) {
        q.push(TimerEntry { wake_tick: i as u32, slot: 0 });
    }
    assert_eq!(q.len(), ASYNC_POOL_MAX);
}

#[test]
fn wake_expired_marks_slots_ready() {
    let mut pool = TaskPool::new();
    let s0 = pool.spawn().unwrap();
    let s1 = pool.spawn().unwrap();
    assert!(pool.begin_poll(s0));
    assert!(pool.begin_poll(s1));
    assert!(!pool.begin_poll(s1));
    let mut q = TimerQueue::new();
    q.push(TimerEntry { wake_tick: 100, slot: s0 });
    q.push(TimerEntry { wake_tick: 200, slot: s1 });
    let woken = q.wake_expired(150, &mut pool);
    assert_eq!(woken.len(), 1);
    assert_eq!(woken[0].slot, s0);
    assert!(pool.begin_poll(s0));
    assert!(!pool.begin_poll(s1));
    assert_eq!(q.len(), 1);
    let woken = q.wake_expired(200, &mut pool);
    assert_eq!(woken.len(), 1);
    assert_eq!(q.len(), 0);
}

#[test]
fn pool_spawn_and_clear() {
    let mut pool = TaskPool::new();
    for i in 0..ASYNC_POOL_MAX {
        assert_eq!(pool.spawn(), Some(i));
    }
    assert_eq!(pool.spawn(), None);
    pool.clear(3);
    assert_eq!(pool.spawn(), Some(3));
    pool.wake(ASYNC_POOL_MAX + 1);
    assert!(TaskSlot::empty().is_free());
}

#[test]
fn timer_future_registers_once() {
    let mut k = Kernel::new(0x2000_0000);
    k.os_ticks = 1000;
    let mut t = AsyncRuntime::delay(&k, 500);
    assert_eq!(t.wake_tick, 1500);
    let mut q = TimerQueue::new();
    assert!(!t.poll_at(1200, 2, &mut q));
    assert!(t.registered);
    assert_eq!(q.len(), 1);
    assert!(!t.poll_at(1300, 2, &mut q));
    assert_eq!(q.len(), 1);
    assert!(t.poll_at(1500, 2, &mut q));
}

#[test]
fn yield_once_is_pending_once() {
    let mut pool = TaskPool::new();
    let s = pool.spawn().unwrap();
    assert!(pool.begin_poll(s));
    let mut y = AsyncRuntime::yield_now();
    assert!(!y.poll_once(s, &mut pool));
    assert!(pool.begin_poll(s));
    assert!(y.poll_once(s, &mut pool));
}
