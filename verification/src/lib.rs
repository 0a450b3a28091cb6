//! Verified core of a user-space driver for the Intel 82540EM (e1000) network
//! card bound to the Linux UIO subsystem: byte-order decoding of device and
//! kernel data, PCI configuration-space parsing, the DMA memory model with its
//! physical-address cache, the receive-ring register programming plan, and the
//! `/proc/self/maps` line parser.

pub mod le;
pub mod pci;
pub mod memory;
pub mod e1000;
pub mod maps;
