# net_uio

A user-space driver for the Intel 82540EM (`e1000`) network card bound to the
Linux UIO subsystem, with its logic verified by Verus.

- `src/` is the verified library:
  - `le`: little-endian decoding and encoding through the `byteorder` crate;
  - `pci`: the PCI configuration header, the command-register write that
    re-enables interrupts, the UIO interrupt counter, the config-space dump rows;
  - `memory`: DMA regions made of huge pages, their physical-address cache, and
    `/proc/self/pagemap` entry decoding;
  - `e1000`: register offsets, receive descriptors, the receive buffer layout and
    the register writes that set up the receiver;
  - `maps`: the address range of a `/proc/self/maps` line.
- `app/` holds the program: file and device I/O, `mmap`/`munmap` through `libc`,
  register access through the mapped BAR, and the `physmap` diagnostic (run when
  the binary is invoked under that name).
- `tests/` runs the library on concrete values.
