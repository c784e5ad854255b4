//! Verified core of a small single-core x86 kernel: the physical frame
//! allocator, the heap page plan and accounting, the interrupt-fed input
//! queue, the tick counter, the text-mode screen model and the command shell.
pub mod memory;
pub mod keyboard;
pub mod heap;
pub mod vga;
pub mod idt;
pub mod shell;
