//! Board-side logic: the LCD text terminal, the interactive shell, trap
//! classification and the system-timer alarm arithmetic.

pub mod terminal;
pub mod shell;
pub mod trap;
pub mod demo;
pub mod rtos_adapter;
