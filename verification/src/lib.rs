pub mod error;
pub mod interrupts;
pub mod shell;
pub mod task;
pub mod vga_buffer;
