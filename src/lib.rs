//! Core of a small x86-64 kernel: interrupt vectors, the timer tick source,
//! physical frame allocation, page mapping, the kernel heap, the real-time
//! clock decoder and the VGA text writer, each as verified logic over plain
//! values. Port I/O and the hardware statics live outside this library.
pub mod bits;
pub mod idt;
pub mod irq;
pub mod memory;
pub mod paging;
pub mod qemu;
pub mod rtc;
pub mod heap;
pub mod time;
pub mod vga;

pub use irq::{InterruptIndex, Irq, PIC_1_OFFSET, PIC_2_OFFSET};
