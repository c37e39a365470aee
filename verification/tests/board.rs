use mos::board::demo::{msgq_launch, msgq_test, mutex_test, pip_test_root};
use mos::board::shell::{
    decode_line, parse_command, set_user_name, shell_push_input, stack_usage_pct,
    sys_cmd_map, task_ctrl_target, uptime_hms, user_name_display, CmdKind, InputRing,
    LineEditor, ShellAction, TaskTarget,
};
use mos::board::terminal::{
    row_band, row_text_top, row_top, CharRing, Terminal, LCD_WIDTH, TERM_COLS, TERM_ROWS,
};
use mos::board::trap::{
    alarm_restart, classify_trap, exception_step, is_esp_hal_cpu_int, ExceptionAction,
    SYSTICK_CPU_INT, mask_unknown_int, next_alarm,
    plan_clock_recovery, plan_systick_repair, systimer_clock_fix, TrapKind, SYSTIMER_PERIOD,
};
use mos::config::{PRI_MAX, PRI_MIN, TIME_SLICE};
use mos::kernel::global::Kernel;
use mos::kernel::sched::Scheduler;
use mos::kernel::task::Task;

#[test]
fn terminal_prints_and_wraps() {
    let mut t = Terminal::new();
    assert_eq!(TERM_COLS, 51);
    assert_eq!(TERM_ROWS, 11);
    for &c in b"hi" {
        t.feed(c);
    }
    assert_eq!(t.row_text(0), b"hi".to_vec());
    assert!(t.is_dirty(0));
    assert_eq!(t.dirty_count(), 1);
    t.feed(0x08);
    assert_eq!(t.row_text(0), b"h".to_vec());
    t.feed(b'\r');
    t.feed(b'X');
    assert_eq!(t.row_text(0), b"X".to_vec());
    t.clear_dirty();
    assert_eq!(t.dirty_count(), 0);
    t.feed(0x01);
    assert_eq!(t.dirty_count(), 0);
    for _ in 0..TERM_COLS {
        t.feed(b'a');
    }
    assert_eq!(t.row_text(1), b"a".to_vec());
    assert!(!t.needs_full_refresh());
}

#[test]
fn terminal_scrolls_at_last_row() {
    let mut t = Terminal::new();
    t.feed(b'0');
    for _ in 0..(TERM_ROWS - 1) {
        t.feed(b'\n');
    }
    t.feed(b'L');
    t.clear_dirty();
    t.feed(b'\n');
    assert!(t.needs_full_refresh());
    assert_eq!(t.dirty_count(), TERM_ROWS);
    assert_eq!(t.row_text(TERM_ROWS - 2), b"L".to_vec());
    assert_eq!(t.row_text(TERM_ROWS - 1), Vec::<u8>::new());
    t.scroll_up();
    assert_eq!(t.row_text(TERM_ROWS - 3), b"L".to_vec());
}

#[test]
fn char_ring_drains_in_order() {
    let mut r = CharRing::new();
    for &c in b"abcde" {
        r.push(c);
    }
    let mut out = [0u8; 3];
    assert_eq!(r.drain(&mut out), 3);
    assert_eq!(&out, b"abc");
    let mut out = [9u8; 4];
    assert_eq!(r.drain(&mut out), 2);
    assert_eq!(&out, &[b'd', b'e', 9, 9]);
    assert_eq!(r.drain(&mut out), 0);
}

#[test]
fn input_ring_appends_newline() {
    let mut r = InputRing::new();
    shell_push_input(&mut r, b"ls");
    assert_eq!(r.pop(), Some(b'l'));
    assert_eq!(r.pop(), Some(b's'));
    assert_eq!(r.pop(), Some(b'\n'));
    assert_eq!(r.pop(), None);
}

#[test]
fn input_ring_drops_when_full() {
    let mut r = InputRing::new();
    for _ in 0..300 {
        r.push(b'x');
    }
    let mut n = 0;
    while r.pop().is_some() {
        n += 1;
    }
    assert_eq!(n, 256);
}

#[test]
fn command_matching() {
    let map = sys_cmd_map();
    assert_eq!(map.len(), 8);
    let kill = map[1];
    assert_eq!(kill.text, "kill");
    assert_eq!(kill.try_match("  kill   shell "), Some("shell "));
    assert_eq!(kill.try_match("kill"), Some(""));
    assert_eq!(kill.try_match("killer"), None);
    assert_eq!(kill.try_match("ls"), None);
    match parse_command("  uname bob") {
        ShellAction::Run(k, a) => {
            assert_eq!(k, CmdKind::Uname);
            assert_eq!(a, "bob");
        }
        _ => panic!("expected a command"),
    }
    assert!(matches!(parse_command("   "), ShellAction::Nothing));
    match parse_command(" frob x ") {
        ShellAction::Unknown(t) => assert_eq!(t, "frob x"),
        _ => panic!("expected unknown"),
    }
    assert!(matches!(parse_command("reboot"), ShellAction::Run(CmdKind::Reboot, "")));
}

#[test]
fn line_editor_edits_and_finishes() {
    let mut e = LineEditor::new();
    for &c in b"lx" {
        assert_eq!(e.feed(c), None);
    }
    assert_eq!(e.feed(0x7F), None);
    assert_eq!(e.feed(b's'), None);
    assert_eq!(e.feed(0x02), None);
    assert_eq!(e.feed(b'\r'), Some(b"ls".to_vec()));
    assert_eq!(e.feed(b'\n'), Some(Vec::new()));
    for _ in 0..40 {
        e.feed(b'a');
    }
    assert_eq!(e.feed(b'\n').unwrap().len(), 31);
}

#[test]
fn decode_line_trims_and_rejects_bad_utf8() {
    assert_eq!(decode_line(b"  time \t"), Some("time"));
    assert_eq!(decode_line(&[0xFF, 0x41]), None);
    assert_eq!(decode_line("\u{a0}ls".as_bytes()), Some("ls"));
}

#[test]
fn task_control_targets() {
    let mut k = Kernel::new(0x2000_0000);
    let t = Task::create(&mut k, 5, "shell", 0x100, 0x200).unwrap();
    assert!(matches!(task_ctrl_target(&k, "  "), TaskTarget::BadArgs));
    assert!(matches!(task_ctrl_target(&k, " shell "), TaskTarget::Found(x) if x == t));
    assert!(matches!(task_ctrl_target(&k, "lcd"), TaskTarget::Unknown("lcd")));
}

#[test]
fn uptime_and_stack_usage() {
    assert_eq!(uptime_hms(3_723_000), (1, 2, 3));
    assert_eq!(uptime_hms(999), (0, 0, 0));
    assert_eq!(stack_usage_pct(0x1000 + 1024 - 512, 0x1000), 50);
    assert_eq!(stack_usage_pct(0x1000 + 2048, 0x1000), 0);
    assert_eq!(stack_usage_pct(0x0, 0x1000), 100);
}

#[test]
fn user_name_update() {
    let mut user = b"neo\0\0\0\0\0".to_vec();
    assert_eq!(user_name_display(&user, "neo"), "neo");
    assert!(!set_user_name(&mut user, "   "));
    assert_eq!(user, b"neo\0\0\0\0\0".to_vec());
    assert!(set_user_name(&mut user, " alice "));
    assert_eq!(user, b"alice\0\0\0".to_vec());
    assert!(set_user_name(&mut user, "bartholomew"));
    assert_eq!(user, b"barthol\0".to_vec());
    assert_eq!(user_name_display(&user, "neo"), "barthol");
    assert_eq!(user_name_display(&[0xFF, 0], "neo"), "neo");
}

#[test]
fn trap_classification() {
    assert_eq!(classify_trap(11, 0x4200_0000), TrapKind::Ecall);
    assert_eq!(classify_trap(1, 0x100), TrapKind::RedirectToRa);
    assert_eq!(classify_trap(1, 0x4200_0000), TrapKind::RecoverClocks);
    assert_eq!(classify_trap(7, 0x4200_0000), TrapKind::RecoverClocks);
    assert_eq!(classify_trap(3, 0x4200_0000), TrapKind::Fatal);
    assert_eq!(classify_trap(0x8000_0014, 0), TrapKind::Systick);
    assert_eq!(classify_trap(0x8000_0005, 0), TrapKind::EspHal);
    assert_eq!(classify_trap(0x8000_001F, 0), TrapKind::UnknownInterrupt);
    assert!(is_esp_hal_cpu_int(19));
    assert!(!is_esp_hal_cpu_int(7));
    assert!(!is_esp_hal_cpu_int(20));
}

#[test]
fn systick_catches_up_missed_ticks() {
    let mut k = Kernel::new(0x2000_0000);
    Task::create(&mut k, 5, "a", 0x100, 0x200).unwrap();
    Scheduler::launch(&mut k, 0x300, 0x200).unwrap();
    assert_eq!(k.systick_ticks(2), 0);
    assert_eq!(k.os_ticks, 3);
    assert_eq!(k.tcbs[0].time_slice, TIME_SLICE - 3);
    assert_eq!(k.systick_ticks(TIME_SLICE + 5), 1);
    assert_eq!(k.tcbs[0].time_slice, 0);
    k.yield_task_from_isr();
    assert_eq!(k.finish_trap(0), 1);
    assert_eq!(k.finish_trap(0), 0);
}

#[test]
fn alarm_moves_past_now() {
    assert_eq!(next_alarm(1000, 0, 0, 0), (1000 + SYSTIMER_PERIOD, 0, 0));
    assert_eq!(next_alarm(1000, 0, 40_000, 0), (1000 + 3 * SYSTIMER_PERIOD, 0, 2));
    let (lo, hi, m) = next_alarm(u32::MAX - 10, 5, 0, 0);
    assert_eq!((lo, hi, m), (SYSTIMER_PERIOD - 11, 6, 0));
    assert_eq!(next_alarm(0, 0xFFFFF, 0, 0xFFFFF).1, 0xFFFFF);
    assert_eq!(next_alarm(0, 0, 0, 10).2, 101);
}

#[test]
fn clock_recovery_plan() {
    assert_eq!(systimer_clock_fix(1, 1 << 22), (None, None));
    assert_eq!(systimer_clock_fix(2, 0), (Some(1), Some(1 << 22)));
    let p = plan_clock_recovery(1, 1 << 22, 5, 1, 0x4200_0010, 0);
    assert!(p.repaired && p.fence);
    assert_eq!(p.last_fenced, 0x4200_0010);
    let p = plan_clock_recovery(1, 1 << 22, 5, 1, 0x4200_0010, 0x4200_0010);
    assert!(!p.repaired);
    let p = plan_clock_recovery(1, 1 << 22, 7, 1, 0x100, 0);
    assert_eq!(p.mspi, Some(5));
    assert!(p.repaired);
}

#[test]
fn demo_scenarios_create_tasks() {
    let mut k = Kernel::new(0x2000_0000);
    let root = mutex_test(&mut k, 0x100, 0x200).unwrap();
    assert_eq!(k.tcbs[root].priority, PRI_MIN);
    pip_test_root(&mut k, 0x110, 0x120, 0x130, 0x200);
    assert_eq!(Task::find_tid(&k, "mtx/H"), Some(1));
    assert_eq!(k.tcbs[3].priority, 3);
    let t = msgq_test(&mut k, 0x140, 0x200).unwrap();
    assert_eq!(k.tcbs[t].priority, PRI_MAX);
    msgq_launch(&mut k, 0x150, 0x160, 0x200);
    assert_eq!(Task::find_tid(&k, "msg_q/recv"), Some(5));
    assert_eq!(k.tcbs[9].priority, 6);
    assert_eq!(k.tcbs[9].name, "msg_q/send");
}

#[test]
fn terminal_row_geometry() {
    assert_eq!(row_top(0), 10);
    assert_eq!(row_top(3), 52);
    assert_eq!(row_text_top(0), 11);
    assert_eq!(row_text_top(10), 151);
    assert_eq!(row_band(0), Some((10 * LCD_WIDTH, 24 * LCD_WIDTH)));
    assert_eq!(row_band(TERM_ROWS - 1), Some((150 * 320, 164 * 320)));
}

#[test]
fn systick_chain_repair() {
    // Everything in order: nothing to do.
    let r = plan_systick_repair(0x1, 1 << 22, 1 << 20, 0x1, 1 << 24);
    assert_eq!(r.clocks, (None, None));
    assert_eq!(r.mxint_enable, None);
    assert_eq!(r.int_ena, None);
    assert!(!r.restart);
    assert!(!r.fixed);
    // Line off, alarm interrupt off, alarm stopped, bus clock in reset.
    let r = plan_systick_repair(0x3, 1 << 22, 0x2, 0x4, 0x10);
    assert_eq!(r.clocks, (Some(0x1), None));
    assert_eq!(r.mxint_enable, Some(0x2 | (1 << 20)));
    assert_eq!(r.int_ena, Some(0x5));
    assert!(r.restart);
    assert!(r.fixed);
    // Restart one period after the current time, carrying into the high word.
    assert_eq!(alarm_restart(0x10, 100, 7), (100 + SYSTIMER_PERIOD, 7, 0x10 | (1 << 24)));
    assert_eq!(alarm_restart(0, u32::MAX - 5, 0xFFFFF), (SYSTIMER_PERIOD - 6, 0, 1 << 24));
}

#[test]
fn unknown_interrupt_is_masked() {
    assert_eq!(mask_unknown_int(31, 0xFFFF_FFFF), (1 << 31, 0x7FFF_FFFF));
    assert_eq!(mask_unknown_int(3, 0b1010), (0b1000, 0b0010));
}

#[test]
fn row_band_past_the_panel() {
    assert_eq!(row_band(10), Some((150 * 320, 164 * 320)));
    assert_eq!(row_band(11), None);
    assert_eq!(row_band(4000), None);
    assert_eq!(row_top(4000), 10 + 14 * 4000);
}

#[test]
fn exception_steps() {
    // ecall: step past it and switch.
    assert_eq!(
        exception_step(11, 0x4200_0100, 0x4200_0200, false),
        ExceptionAction::Resume { pc: 0x4200_0104, switch: 1 }
    );
    // Jump to an invalid address: resume at the return address.
    assert_eq!(
        exception_step(1, 0x10, 0x4200_0300, false),
        ExceptionAction::Resume { pc: 0x4200_0300, switch: 0 }
    );
    // Clock fault: retry when a repair was attempted, else halt.
    assert_eq!(
        exception_step(5, 0x4200_0400, 0, true),
        ExceptionAction::Resume { pc: 0x4200_0400, switch: 0 }
    );
    assert_eq!(exception_step(5, 0x4200_0400, 0, false), ExceptionAction::Halt);
    assert_eq!(exception_step(3, 0x4200_0400, 0, true), ExceptionAction::Halt);
}

#[test]
fn interrupt_steps() {
    let mut k = Kernel::new(0x2000_0000);
    Task::create(&mut k, 5, "a", 0x100, 0x200).unwrap();
    Scheduler::launch(&mut k, 0x300, 0x200).unwrap();
    // A tick with the slice left: no switch.
    assert_eq!(k.interrupt_step(SYSTICK_CPU_INT, 0), 0);
    assert_eq!(k.os_ticks, 1);
    // A deferred request from a handler forces a switch, once.
    k.yield_task_from_isr();
    assert_eq!(k.interrupt_step(12, 0), 1);
    assert!(!k.yield_from_isr);
    assert_eq!(k.interrupt_step(31, 0), 0);
    // Missed ticks are caught up.
    assert_eq!(k.interrupt_step(SYSTICK_CPU_INT, 2), 0);
    assert_eq!(k.os_ticks, 4);
}
