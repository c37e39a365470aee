//! Trap classification and timer-interrupt bookkeeping, and the clock and
//! alarm arithmetic of the system timer.

use vstd::prelude::*;
use vstd::wrapping::u32_specs::wrapping_add;
use crate::kernel::global::Kernel;
use crate::kernel::tcb::Tcb;

verus! {

/// CPU interrupt line of the system tick.
pub const SYSTICK_CPU_INT: u32 = 20;

/// System-timer ticks per scheduler tick (1 ms at 16 MHz).
pub const SYSTIMER_PERIOD: u32 = 16_000;

/// Most periods an alarm is moved forward past missed ticks.
pub const MAX_MISSED: u32 = 101;

/// `mcause` exception code of an environment call from machine mode.
pub const ECALL_CODE: u32 = 11;

/// Whether CPU interrupt `code` belongs to the HAL's interrupt table.
pub open spec fn hal_int(code: u32) -> bool {
    code == 1 || code == 2 || code == 5 || code == 6 || (9 <= code <= 19)
}

/// Whether CPU interrupt `code` belongs to the HAL's interrupt table
/// (lines 1, 2, 5, 6 and 9 to 19).
pub fn is_esp_hal_cpu_int(code: u32) -> (r: bool)
    ensures
        r == hal_int(code),
{
    code == 1 || code == 2 || code == 5 || code == 6 || (9 <= code && code <= 19)
}

/// What the trap handler does for a trap.
#[derive(Copy, Clone, PartialEq, Eq, Debug, Structural)]
pub enum TrapKind {
    /// `ecall`: step past it and switch context.
    Ecall,
    /// A jump to an invalid address: resume at the return address.
    RedirectToRa,
    /// A fault that restoring peripheral clocks may cure.
    RecoverClocks,
    /// An unrecoverable fault.
    Fatal,
    /// The system tick.
    Systick,
    /// An interrupt handled by the HAL.
    EspHal,
    /// An unknown interrupt: it is masked.
    UnknownInterrupt,
}

/// Exception code or interrupt number of `mcause`.
pub open spec fn cause_code(mcause: u32) -> u32 {
    mcause & 0x7FFF_FFFFu32
}

/// Whether `mcause` denotes an interrupt.
pub open spec fn is_interrupt(mcause: u32) -> bool {
    mcause & 0x8000_0000u32 != 0
}

/// The handling of a trap with cause `mcause` at `mepc`.
pub open spec fn trap_kind(mcause: u32, mepc: u32) -> TrapKind {
    let code = cause_code(mcause);
    if !is_interrupt(mcause) {
        if code == ECALL_CODE {
            TrapKind::Ecall
        } else if (code == 1 || code == 2) && mepc < 0x4000_0000 {
            TrapKind::RedirectToRa
        } else if code == 1 || code == 2 || code == 5 || code == 7 {
            TrapKind::RecoverClocks
        } else {
            TrapKind::Fatal
        }
    } else if code == SYSTICK_CPU_INT {
        TrapKind::Systick
    } else if hal_int(code) {
        TrapKind::EspHal
    } else {
        TrapKind::UnknownInterrupt
    }
}

/// Classifies a trap (see [`trap_kind`]).
pub fn classify_trap(mcause: u32, mepc: u32) -> (r: TrapKind)
    ensures
        r == trap_kind(mcause, mepc),
{
    let is_int = mcause & 0x8000_0000 != 0;
    let code = mcause & 0x7FFF_FFFF;
    if !is_int {
        if code == ECALL_CODE {
            TrapKind::Ecall
        } else if (code == 1 || code == 2) && mepc < 0x4000_0000 {
            TrapKind::RedirectToRa
        } else if code == 1 || code == 2 || code == 5 || code == 7 {
            TrapKind::RecoverClocks
        } else {
            TrapKind::Fatal
        }
    } else if code == SYSTICK_CPU_INT {
        TrapKind::Systick
    } else if is_esp_hal_cpu_int(code) {
        TrapKind::EspHal
    } else {
        TrapKind::UnknownInterrupt
    }
}

/// The time slice after `n` ticks: it counts down and stays at 0.
pub open spec fn slice_after(ts: u32, n: nat) -> u32 {
    if ts >= n {
        (ts - n) as u32
    } else {
        0
    }
}

/// The tick counter after `n` ticks (wrapping).
pub open spec fn ticks_after(t: u32, n: nat) -> u32
    decreases n,
{
    if n == 0 {
        t
    } else {
        wrapping_add(ticks_after(t, (n - 1) as nat), 1)
    }
}

/// The kernel `post` and result `r` after `missed + 1` timer ticks in
/// kernel `pre` (see [`Kernel::systick_ticks`]): before the scheduler runs
/// nothing happens; afterwards the tick counter advances, the running task's
/// slice counts down, and `r` is 1 when the slice ran out or tasks sleep.
pub open spec fn ticked(pre: Kernel, post: Kernel, missed: u32, r: u32) -> bool {
    if !pre.sched_ready {
        r == 0 && post == pre
    } else {
        let c = pre.current->Some_0;
        let t = pre.tcbs@[c as int];
        let ts = slice_after(t.time_slice, (missed + 1) as nat);
        &&& post.os_ticks == ticks_after(pre.os_ticks, (missed + 1) as nat)
        &&& post.tcbs@ == pre.tcbs@.update(c as int, Tcb { time_slice: ts, ..t })
        &&& r == (if ts == 0 || pre.sleeping_list@.len() > 0 { 1u32 } else { 0u32 })
        &&& post == (Kernel { tcbs: post.tcbs, os_ticks: post.os_ticks, ..pre })
    }
}

/// What the trap handler does after an exception.
#[derive(Copy, Clone, PartialEq, Eq, Debug, Structural)]
pub enum ExceptionAction {
    /// Resume at `pc` (written to the saved frame); `switch` is 1 when a
    /// context switch follows.
    Resume { pc: u32, switch: u32 },
    /// The fault cannot be recovered from: report it and halt.
    Halt,
}

impl Kernel {
    /// Runs `missed + 1` timer ticks (catching up ticks the interrupt was
    /// late for). Returns 1 when any of them asked for a scheduling point,
    /// else 0.
    pub fn systick_ticks(&mut self, missed: u32) -> (r: u32)
        requires
            old(self).wf(),
            missed < u32::MAX,
        ensures
            final(self).wf(),
            ticked(*old(self), *final(self), missed, r),
    {
        let mut r: u32 = 0;
        let mut i: u32 = 0;
        let ghost c = old(self).current->Some_0;
        let ghost t = old(self).tcbs@[c as int];
        while i <= missed
            invariant
                self.wf(),
                old(self).wf(),
                i <= missed + 1,
                missed < u32::MAX,
                r == 0 || r == 1,
                i == 0 ==> r == 0,
                old(self).sched_ready ==> c == old(self).current->Some_0 && t == old(self).tcbs@[c as int],
                !old(self).sched_ready ==> r == 0 && *self == *old(self),
                old(self).sched_ready ==> ({
                    let ts = slice_after(t.time_slice, i as nat);
                    &&& self.os_ticks == ticks_after(old(self).os_ticks, i as nat)
                    &&& self.tcbs@ == old(self).tcbs@.update(c as int, Tcb { time_slice: ts, ..t })
                    &&& (i > 0 ==> r == (if ts == 0 || old(self).sleeping_list@.len() > 0 {
                        1u32
                    } else {
                        0u32
                    }))
                    &&& *self == (Kernel { tcbs: self.tcbs, os_ticks: self.os_ticks, ..*old(self) })
                }),
            decreases missed + 1 - i,
        {
            let ghost before = self.tcbs@;
            let ghost ts_i = slice_after(t.time_slice, i as nat);
            let x = self.systick_tick();
            proof {
                if old(self).sched_ready {
                    assert(before[c as int] == (Tcb { time_slice: ts_i, ..t }));
                    assert(slice_after(t.time_slice, (i + 1) as nat) == (if ts_i > 0 {
                        (ts_i - 1) as u32
                    } else {
                        ts_i
                    }));
                    assert(self.tcbs@ =~= old(self).tcbs@.update(
                        c as int,
                        Tcb { time_slice: slice_after(t.time_slice, (i + 1) as nat), ..t },
                    ));
                }
                assert(x == 0 || x == 1);
                assert((0u32 | 0u32) == 0u32 && (0u32 | 1u32) == 1u32 && (1u32 | 0u32) == 1u32 && (1u32
                    | 1u32) == 1u32) by (bit_vector);
            }
            r = r | x;
            i = i + 1;
        }
        r
    }

    /// The interrupt part of the trap handler, for CPU interrupt line `code`:
    /// the system tick runs `missed + 1` timer ticks (see
    /// [`Kernel::systick_ticks`]); other lines (handled by the HAL, or masked
    /// when unknown) ask for no switch of their own. Then a deferred switch
    /// request from a handler is consumed (see [`Kernel::finish_trap`]).
    /// Returns 1 when a context switch follows.
    pub fn interrupt_step(&mut self, code: u32, missed: u32) -> (r: u32)
        requires
            old(self).wf(),
            missed < u32::MAX,
        ensures
            final(self).wf(),
            code == SYSTICK_CPU_INT ==> exists|mid: Kernel, tr: u32|
                {
                    &&& #[trigger] ticked(*old(self), mid, missed, tr)
                    &&& r == (if old(self).yield_from_isr { 1u32 } else { tr })
                    &&& *final(self) == (Kernel { yield_from_isr: false, ..mid })
                },
            code != SYSTICK_CPU_INT ==> r == (if old(self).yield_from_isr { 1u32 } else { 0u32 })
                && *final(self) == (Kernel { yield_from_isr: false, ..*old(self) }),
    {
        let ret = if code == SYSTICK_CPU_INT {
            self.systick_ticks(missed)
        } else {
            0
        };
        let ghost mid = *self;
        let r = self.finish_trap(ret);
        proof {
            if code == SYSTICK_CPU_INT {
                assert(ticked(*old(self), mid, missed, ret));
            }
        }
        r
    }

    /// Ends an interrupt: a deferred context-switch request from the handler
    /// is consumed and forces a switch; otherwise `ret` stands.
    pub fn finish_trap(&mut self, ret: u32) -> (r: u32)
        ensures
            r == (if old(self).yield_from_isr { 1u32 } else { ret }),
            *final(self) == (Kernel { yield_from_isr: false, ..*old(self) }),
    {
        let pending = self.yield_from_isr;
        self.yield_from_isr = false;
        if pending {
            1
        } else {
            ret
        }
    }
}

// ==========================================
// System-timer alarm arithmetic
// ==========================================

/// An alarm target (low word, high word) moved one period ahead; the high
/// word is 20 bits wide.
pub open spec fn alarm_step(lo: u32, hi: u32) -> (u32, u32) {
    if lo + SYSTIMER_PERIOD > u32::MAX {
        ((lo + SYSTIMER_PERIOD - 0x1_0000_0000) as u32, ((hi + 1) as u32) & 0xFFFFFu32)
    } else {
        ((lo + SYSTIMER_PERIOD) as u32, hi)
    }
}

/// The target moved `n` periods ahead.
pub open spec fn alarm_advance(lo: u32, hi: u32, n: nat) -> (u32, u32)
    decreases n,
{
    if n == 0 {
        (lo, hi)
    } else {
        let p = alarm_advance(lo, hi, (n - 1) as nat);
        alarm_step(p.0, p.1)
    }
}

/// The 64-bit value of a (low word, high word) pair.
pub open spec fn alarm_value(lo: u32, hi: u32) -> int {
    hi * 0x1_0000_0000 + lo
}

proof fn lemma_value(lo: u32, hi: u32)
    by (bit_vector)
    ensures
        (((hi as u64) << 32u64) | (lo as u64)) == (hi as u64) * 0x1_0000_0000u64 + (lo as u64),
{
}

/// The wrapped sum of `a` and `b`, and whether the addition overflowed.
fn u32_overflowing_add(a: u32, b: u32) -> (r: (u32, bool))
    ensures
        r.0 == wrapping_add(a, b),
        r.1 == (a + b > u32::MAX),
{
    let s = a.wrapping_add(b);
    (s, s < a)
}

proof fn lemma_mask_bound(x: u32)
    by (bit_vector)
    ensures
        x & 0xFFFFFu32 <= 0xFFFFFu32,
{
}

/// The next alarm after a tick whose target was (`lo`, `hi`), with the timer
/// now at (`cur_lo`, `cur_hi`): the target moves one period ahead, then on
/// by whole periods while it is not past the current time, at most
/// `MAX_MISSED` times. Returns the new target and the number of extra
/// periods (ticks missed).
pub fn next_alarm(lo: u32, hi: u32, cur_lo: u32, cur_hi: u32) -> (r: (u32, u32, u32))
    requires
        hi < u32::MAX,
    ensures
        r.2 <= MAX_MISSED,
        (r.0, r.1) == alarm_advance(lo, hi, (r.2 + 1) as nat),
        forall|j: nat| 1 <= j <= r.2 ==> alarm_value(
            #[trigger] alarm_advance(lo, hi, j).0,
            alarm_advance(lo, hi, j).1,
        ) <= alarm_value(cur_lo, cur_hi),
        alarm_value(r.0, r.1) > alarm_value(cur_lo, cur_hi) || r.2 == MAX_MISSED,
{
    let (l1, carry) = u32_overflowing_add(lo, SYSTIMER_PERIOD);
    let mut next_lo = l1;
    let mut next_hi = if carry {
        (hi + 1) & 0xFFFFF
    } else {
        hi
    };
    proof {
        reveal_with_fuel(alarm_advance, 2);
        lemma_mask_bound((hi + 1) as u32);
    }
    let cur_val: u64 = ((cur_hi as u64) << 32) | (cur_lo as u64);
    proof {
        lemma_value(cur_lo, cur_hi);
    }
    let mut missed: u32 = 0;
    let mut done = false;
    while !done
        invariant
            missed <= MAX_MISSED,
            (next_lo, next_hi) == alarm_advance(lo, hi, (missed + 1) as nat),
            next_hi < u32::MAX,
            cur_val == alarm_value(cur_lo, cur_hi),
            forall|j: nat| 1 <= j <= missed ==> alarm_value(
                #[trigger] alarm_advance(lo, hi, j).0,
                alarm_advance(lo, hi, j).1,
            ) <= alarm_value(cur_lo, cur_hi),
            done ==> alarm_value(next_lo, next_hi) > alarm_value(cur_lo, cur_hi) || missed
                == MAX_MISSED,
            !done ==> missed < MAX_MISSED,
        decreases MAX_MISSED - missed + (if done { 0int } else { 1int }),
    {
        let next_val: u64 = ((next_hi as u64) << 32) | (next_lo as u64);
        proof {
            lemma_value(next_lo, next_hi);
        }
        if next_val > cur_val {
            done = true;
        } else {
            let ghost m = missed;
            let (nl, c) = u32_overflowing_add(next_lo, SYSTIMER_PERIOD);
            next_lo = nl;
            if c {
                proof {
                    lemma_mask_bound((next_hi + 1) as u32);
                }
                next_hi = (next_hi + 1) & 0xFFFFF;
            }
            missed = missed + 1;
            proof {
                assert(alarm_advance(lo, hi, (missed + 1) as nat) == alarm_step(
                    alarm_advance(lo, hi, (m + 1) as nat).0,
                    alarm_advance(lo, hi, (m + 1) as nat).1,
                ));
                assert forall|j: nat| 1 <= j <= missed implies alarm_value(
                    #[trigger] alarm_advance(lo, hi, j).0,
                    alarm_advance(lo, hi, j).1,
                ) <= alarm_value(cur_lo, cur_hi) by {
                    if j == missed {
                        assert(j == m + 1);
                    }
                }
            }
            if missed > 100 {
                done = true;
            }
        }
    }
    (next_lo, next_hi, missed)
}

// ==========================================
// Clock recovery
// ==========================================

/// New value of a clock register that must have bit 0 (clock on) set and
/// bit 1 (reset) clear, if it needs fixing.
pub open spec fn clock_en_fix(v: u32) -> Option<u32> {
    if v & 1u32 == 0 || v & 2u32 != 0 {
        Some((v | 1u32) & !2u32)
    } else {
        None
    }
}

/// New value of the timer function-clock register, which must have bit 22
/// set, if it needs fixing.
pub open spec fn func_clk_fix(v: u32) -> Option<u32> {
    if v & 0x40_0000u32 == 0 {
        Some(v | 0x40_0000u32)
    } else {
        None
    }
}

/// New value of the flash-interface clock register, which must have bits 0
/// and 2 set and bit 1 clear, if it needs fixing.
pub open spec fn mspi_fix(v: u32) -> Option<u32> {
    if v & 5u32 != 5u32 || v & 2u32 != 0 {
        Some((v | 5u32) & !2u32)
    } else {
        None
    }
}

/// Register writes that restore the system-timer clocks.
pub fn systimer_clock_fix(conf: u32, func_clk: u32) -> (r: (Option<u32>, Option<u32>))
    ensures
        r == (clock_en_fix(conf), func_clk_fix(func_clk)),
{
    let c = if conf & 1 == 0 || conf & 2 != 0 {
        Some((conf | 1) & !2u32)
    } else {
        None
    };
    let f = if func_clk & 0x40_0000 == 0 {
        Some(func_clk | 0x40_0000)
    } else {
        None
    };
    (c, f)
}

/// What recovering from a fault caused by switched-off clocks does.
#[derive(Copy, Clone)]
pub struct ClockRepair {
    /// New system-timer bus-clock register value, if it needs fixing.
    pub systimer_conf: Option<u32>,
    /// New system-timer function-clock register value, if it needs fixing.
    pub systimer_func: Option<u32>,
    /// New flash-interface clock register value, if it needs fixing.
    pub mspi: Option<u32>,
    /// New cache clock register value, if it needs fixing.
    pub cache: Option<u32>,
    /// Whether the instruction cache is synchronised (`fence.i`).
    pub fence: bool,
    /// The faulting address remembered as last synchronised.
    pub last_fenced: u32,
    /// Whether a repair was attempted (the faulting instruction is retried).
    pub repaired: bool,
}

/// Plans the recovery from a fault at `mepc` from the clock registers read:
/// any clock that is off is switched on; then, or else when `mepc` lies in
/// flash and was not the address last synchronised, the instruction cache is
/// synchronised and `mepc` remembered. Without either, nothing is attempted.
pub fn plan_clock_recovery(
    conf: u32,
    func_clk: u32,
    mspi: u32,
    cache: u32,
    mepc: u32,
    last_fenced: u32,
) -> (r: ClockRepair)
    ensures
        r.systimer_conf == clock_en_fix(conf),
        r.systimer_func == func_clk_fix(func_clk),
        r.mspi == mspi_fix(mspi),
        r.cache == clock_en_fix(cache),
        ({
            let fixed = clock_en_fix(conf) is Some || func_clk_fix(func_clk) is Some || mspi_fix(
                mspi,
            ) is Some || clock_en_fix(cache) is Some;
            let in_flash = 0x4200_0000 <= mepc < 0x4400_0000;
            &&& r.repaired == (fixed || (in_flash && last_fenced != mepc))
            &&& r.fence == r.repaired
            &&& r.last_fenced == (if r.repaired { mepc } else { last_fenced })
        }),
{
    let (sc, sf) = systimer_clock_fix(conf, func_clk);
    let m = if mspi & 5 != 5 || mspi & 2 != 0 {
        Some((mspi | 5) & !2u32)
    } else {
        None
    };
    let c = if cache & 1 == 0 || cache & 2 != 0 {
        Some((cache | 1) & !2u32)
    } else {
        None
    };
    let fixed = sc.is_some() || sf.is_some() || m.is_some() || c.is_some();
    let in_flash = mepc >= 0x4200_0000 && mepc < 0x4400_0000;
    let repaired = fixed || (in_flash && last_fenced != mepc);
    ClockRepair {
        systimer_conf: sc,
        systimer_func: sf,
        mspi: m,
        cache: c,
        fence: repaired,
        last_fenced: if repaired {
            mepc
        } else {
            last_fenced
        },
        repaired,
    }
}

/// The interrupt-matrix enable word with the tick line switched on, if it
/// was off.
pub open spec fn systick_line_fix(en: u32) -> Option<u32> {
    if en & (1u32 << SYSTICK_CPU_INT) == 0 {
        Some(en | (1u32 << SYSTICK_CPU_INT))
    } else {
        None
    }
}

/// The timer's interrupt-enable word with alarm 0 (bit 0) on, if it was off.
pub open spec fn alarm_int_fix(v: u32) -> Option<u32> {
    if v & 1u32 == 0 {
        Some(v | 1u32)
    } else {
        None
    }
}

/// Whether alarm 0 is stopped (bit 24 of the timer configuration clear).
pub open spec fn alarm_stopped(conf: u32) -> bool {
    conf & 0x100_0000u32 == 0
}

/// What restoring the system-tick chain (timer clocks, interrupt line,
/// alarm interrupt, running alarm) does.
#[derive(Copy, Clone)]
pub struct SystickRepair {
    /// New timer bus-clock and function-clock register values, if they need fixing.
    pub clocks: (Option<u32>, Option<u32>),
    /// New interrupt-matrix enable word, if the tick line was off.
    pub mxint_enable: Option<u32>,
    /// New timer interrupt-enable word, if the alarm interrupt was off.
    pub int_ena: Option<u32>,
    /// Whether the stopped alarm is restarted (see [`alarm_restart`]).
    pub restart: bool,
    /// Whether anything was repaired.
    pub fixed: bool,
}

/// Plans the repair of the system-tick chain from the registers read: the
/// timer clocks, the interrupt-matrix enable word, the timer's interrupt
/// enable and its configuration.
pub fn plan_systick_repair(pcr_conf: u32, func_clk: u32, mxint_en: u32, int_ena: u32, conf: u32) -> (r:
    SystickRepair)
    ensures
        r.clocks == (clock_en_fix(pcr_conf), func_clk_fix(func_clk)),
        r.mxint_enable == systick_line_fix(mxint_en),
        r.int_ena == alarm_int_fix(int_ena),
        r.restart == alarm_stopped(conf),
        r.fixed == (r.clocks.0 is Some || r.clocks.1 is Some || r.mxint_enable is Some
            || r.int_ena is Some || r.restart),
{
    let clocks = systimer_clock_fix(pcr_conf, func_clk);
    let mx = if mxint_en & (1u32 << SYSTICK_CPU_INT) == 0 {
        Some(mxint_en | (1u32 << SYSTICK_CPU_INT))
    } else {
        None
    };
    let ie = if int_ena & 1 == 0 {
        Some(int_ena | 1)
    } else {
        None
    };
    let restart = conf & 0x100_0000 == 0;
    let fixed = clocks.0.is_some() || clocks.1.is_some() || mx.is_some() || ie.is_some() || restart;
    SystickRepair { clocks, mxint_enable: mx, int_ena: ie, restart, fixed }
}

/// Restarting a stopped alarm with the timer at (`cur_lo`, `cur_hi`): the
/// target one period ahead, and the configuration word with the alarm on.
pub fn alarm_restart(conf: u32, cur_lo: u32, cur_hi: u32) -> (r: (u32, u32, u32))
    requires
        cur_hi < u32::MAX,
    ensures
        (r.0, r.1) == alarm_step(cur_lo, cur_hi),
        r.2 == conf | 0x100_0000u32,
{
    let (next_lo, carry) = u32_overflowing_add(cur_lo, SYSTIMER_PERIOD);
    let next_hi = if carry {
        (cur_hi + 1) & 0xFFFFF
    } else {
        cur_hi
    };
    (next_lo, next_hi, conf | 0x100_0000)
}

/// Silencing an unknown interrupt line `code`: the word written to the
/// interrupt-clear register, and the enable word `en` with the line off.
pub fn mask_unknown_int(code: u32, en: u32) -> (r: (u32, u32))
    requires
        code < 32,
    ensures
        r.0 == 1u32 << code,
        r.1 == en & !(1u32 << code),
{
    (1u32 << code, en & !(1u32 << code))
}

/// The exception part of the trap handler, for a trap with cause `mcause`
/// (an exception) taken at `saved_pc` with return address `saved_ra`;
/// `repaired` tells whether the clock recovery (see [`plan_clock_recovery`])
/// attempted a repair. An `ecall` resumes at the next instruction with a
/// context switch; a jump to an invalid address resumes at the return
/// address; a clock fault resumes at the faulting instruction once a repair
/// was attempted; anything else halts.
pub fn exception_step(mcause: u32, saved_pc: u32, saved_ra: u32, repaired: bool) -> (r: ExceptionAction)
    requires
        !is_interrupt(mcause),
        trap_kind(mcause, saved_pc) == TrapKind::Ecall ==> saved_pc + 4 <= u32::MAX,
    ensures
        match trap_kind(mcause, saved_pc) {
            TrapKind::Ecall => r == (ExceptionAction::Resume { pc: (saved_pc + 4) as u32, switch: 1 }),
            TrapKind::RedirectToRa => r == (ExceptionAction::Resume { pc: saved_ra, switch: 0 }),
            TrapKind::RecoverClocks => r == (if repaired {
                ExceptionAction::Resume { pc: saved_pc, switch: 0 }
            } else {
                ExceptionAction::Halt
            }),
            _ => r is Halt,
        },
{
    match classify_trap(mcause, saved_pc) {
        TrapKind::Ecall => ExceptionAction::Resume { pc: ecall_resume_pc(saved_pc), switch: 1 },
        TrapKind::RedirectToRa => ExceptionAction::Resume { pc: saved_ra, switch: 0 },
        TrapKind::RecoverClocks => {
            if repaired {
                ExceptionAction::Resume { pc: saved_pc, switch: 0 }
            } else {
                ExceptionAction::Halt
            }
        },
        _ => ExceptionAction::Halt,
    }
}

/// Where execution resumes after an `ecall` at `mepc`: the next instruction.
pub fn ecall_resume_pc(mepc: u32) -> (r: u32)
    requires
        mepc + 4 <= u32::MAX,
    ensures
        r == mepc + 4,
{
    mepc + 4
}

/// Every CPU interrupt line of the HAL's table (1, 2, 5, 6 and 9 to 19)
/// is an interrupt the HAL handles: such an interrupt is forwarded to the
/// HAL, never taken for the tick and never masked as unknown.
pub proof fn law_hal_lines_forwarded(code: u32, pc: u32)
    requires
        code == 1 || code == 2 || code == 5 || code == 6 || (9 <= code <= 19),
    ensures
        hal_int(code),
        trap_kind(0x8000_0000u32 | code, pc) == TrapKind::EspHal,
{
    assert(code < 0x8000_0000u32 ==> (0x8000_0000u32 | code) & 0x7FFF_FFFFu32 == code
        && (0x8000_0000u32 | code) & 0x8000_0000u32 != 0) by (bit_vector);
}

/// The tick line is taken for the tick, and any other line outside the
/// HAL's table is masked as unknown.
pub proof fn law_other_lines(code: u32, pc: u32)
    requires
        code < 32,
        !(code == 1 || code == 2 || code == 5 || code == 6 || (9 <= code <= 19)),
    ensures
        trap_kind(0x8000_0000u32 | code, pc) == (if code == 20 {
            TrapKind::Systick
        } else {
            TrapKind::UnknownInterrupt
        }),
{
    assert(code < 0x8000_0000u32 ==> (0x8000_0000u32 | code) & 0x7FFF_FFFFu32 == code
        && (0x8000_0000u32 | code) & 0x8000_0000u32 != 0) by (bit_vector);
}

} // verus!
