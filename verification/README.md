# soos

The decisions and data structures of the SoOS x86_64 kernel, verified with
Verus, and the kernel around them.

- `src/` is the verified library: the physical memory map, the frame
  allocators and the kernel's mapping plan, processes and their open files,
  the scheduler's choices, the system calls as changes to processes and the
  file system, the virtual file system, the ELF load plan, and the decoding
  done by the drivers (PCI configuration space and class codes, the real-time
  clock, the PS/2 mouse and keyboard, the serial port, the interval timer, the
  terminal's control sequences).  Each public function states what it
  returns or changes; where an outside crate computes part of it (the
  keyboard decoder and layout, the ELF reader), the contract names that
  part.  The laws that relate several functions are public proof functions
  next to them.
- `tests/` runs the library on concrete values.
- `app/` is the kernel itself: boot, port I/O, page tables, interrupt entry,
  the scheduler loop and the copying to and from the memory of processes,
  each step handing plain values to the library.
