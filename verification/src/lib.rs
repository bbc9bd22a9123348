//! Resource-management core of a freestanding kernel: physical frame
//! allocation, descriptor-table and identity-paging construction, PCI
//! configuration-space enumeration, message-signaled-interrupt routing, and
//! the fixed-capacity queue that hands events from the interrupt handler to
//! the main loop.
//!
//! Hardware access (port I/O, CPU instructions, memory-mapped registers) is
//! left to the embedding program; this crate holds the decisions and the
//! packed-value computations, each with a proved contract.

pub mod error;
pub mod interrupt;
pub mod memory_manager;
pub mod memory_map;
pub mod paging;
pub mod pci;
pub mod queue;
pub mod segment;
pub mod x86_descriptor;
