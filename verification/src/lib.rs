//! The verified core of the SoOS kernel: the decisions and data structures
//! of its drivers, memory management, processes and virtual file system,
//! separated from the port and memory accesses that carry them out.

pub mod pci_class;
pub mod memmap;
pub mod bump;
pub mod frame_bitmap;
pub mod paging;
pub mod fifo;
pub mod io;
pub mod color;
pub mod spinlock;
pub mod timer;
pub mod process;
pub mod vfs;
pub mod simple_vfs;
pub mod syscall;
pub mod elf;
pub mod input;
pub mod pci;
pub mod serial;
pub mod rtc;
pub mod term;
