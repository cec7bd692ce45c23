//! Virtual-memory core of a small multi-hart RISC-V (Sv39) kernel: physical
//! frames, Sv39 address types and page-table entries, the three-level page
//! table tree, the kernel and user address-space builders, and the
//! supervisor CSR bitfields they feed.

use vstd::prelude::*;

pub mod address;
pub mod error;
pub mod frame;
pub mod layout;
pub mod pagetable;
pub mod process;
pub mod satp;
pub mod scause;
pub mod sepc;
pub mod sstatus;
pub mod stvec;
pub mod trap;
pub mod sv39;
pub mod vm;
