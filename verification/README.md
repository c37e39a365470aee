# mos

MOS is a small preemptive real-time kernel for RISC-V microcontrollers
(here an ESP32-C6 board with an LCD console and a BLE shell). This crate
holds its logic as verified code: every public function carries a contract
that Verus proves.

## Layout

- `src/config.rs`: kernel constants (task pool size, priorities, tick rate).
- `src/data_type/`: bitmap, linear buffer and ring queue.
- `src/kernel/`: task control blocks and stack frames, task lists, the
  kernel state, the scheduler, task life cycle, semaphore / mutex with
  priority inheritance / condition variable / barrier, message queues, and
  the async executor's slot pool and timer heap.
- `src/board/`: the LCD terminal state machine, the shell (line editing,
  command parsing, user name, uptime), trap classification and system-timer
  alarm arithmetic, the scheduler interface offered to the radio firmware,
  and the board's test-task set-up.
- `tests/`: tests of the library on concrete values.
- `app/`: a host build of the board program: the kernel behind a critical
  section, standard input as the shell's input and the LCD console rendered
  into a frame buffer.

Operations that would block or switch context (semaphore down, mutex lock,
message-queue send and receive, delays) update the kernel state and set
`yield_pending`; the caller performs the switch and, where an operation
continues after the task runs again, calls its `*_resume` (or, for a
barrier, `recheck`) step.
