//! Physical and virtual memory layout of the kernel.

use vstd::prelude::*;

verus! {

/// Start of physical RAM.
pub const MEMORY_BASE: u64 = 0x8000_0000;

/// Load address of the kernel image.
pub const KERNBASE: u64 = 0x8020_0000;

/// End of physical RAM (128 MiB after `MEMORY_BASE`).
pub const PHYSTOP: u64 = 0x8800_0000;

/// Size of one page.
pub const PGSZ: u64 = 0x1000;

/// One past the highest virtual address the kernel uses (`1 << 38`).
pub const MAXVA: u64 = 0x40_0000_0000;

/// Ceiling of the kernel heap: 200 pages below `PHYSTOP`.
pub const HEAP_TOP: u64 = 0x8793_8000;

/// Virtual page holding the trap entry/exit code, the highest page below `MAXVA`.
pub const TRAMPOLINE: u64 = 0x3f_ffff_f000;

/// Virtual page holding a task's saved registers, just below the trampoline.
pub const TRAPFRAME: u64 = 0x3f_ffff_e000;

/// Size of one kernel stack (three pages).
pub const KERNEL_STACK_SIZE: u64 = 0x3000;

/// Number of task slots that get a kernel stack.
pub const MAX_PROCESS: usize = 32;

/// Distance between two consecutive kernel stacks: the stack plus one guard page.
pub const KSTACK_STRIDE: u64 = 0x4000;

pub open spec fn spec_kstack(pid: nat) -> int {
    TRAPFRAME - PGSZ - (pid as u64 + 1) * KSTACK_STRIDE
}

pub open spec fn spec_phy_kstack(pid: nat) -> int {
    PHYSTOP - 10 * PGSZ - (pid as u64 + 1) * KSTACK_STRIDE
}

/// Virtual base of the kernel stack of task `pid`; stacks grow down from the
/// trap frame page, each followed by an unmapped guard page.
pub fn kstack(pid: usize) -> (r: u64)
    requires
        pid < MAX_PROCESS,
    ensures
        r == spec_kstack(pid as nat),
{
    TRAPFRAME - PGSZ - (pid as u64 + 1) * KSTACK_STRIDE
}

/// Physical base of the memory backing the kernel stack of task `pid`,
/// taken from the top of RAM.
pub fn phy_kstack(pid: usize) -> (r: u64)
    requires
        pid < MAX_PROCESS,
    ensures
        r == spec_phy_kstack(pid as nat),
{
    PHYSTOP - 10 * PGSZ - (pid as u64 + 1) * KSTACK_STRIDE
}

pub open spec fn spec_align_down(x: int, align: int) -> int {
    x - x % align
}

pub open spec fn spec_align_up(x: int, align: int) -> int {
    if x % align == 0 {
        x
    } else {
        x - x % align + align
    }
}

/// Rounds `x` down to a multiple of the page size.
pub fn align_down(x: u64) -> (r: u64)
    ensures
        r == spec_align_down(x as int, PGSZ as int),
        r % PGSZ == 0,
        r <= x,
        x - r < PGSZ,
{
    x - x % PGSZ
}

/// Rounds `x` up to a multiple of the page size; `None` when that exceeds `u64`.
pub fn align_up(x: u64) -> (r: Option<u64>)
    ensures
        r is Some <==> spec_align_up(x as int, PGSZ as int) <= u64::MAX,
        r is Some ==> r->0 == spec_align_up(x as int, PGSZ as int),
        r is Some ==> r->0 % PGSZ == 0 && x <= r->0 && r->0 - x < PGSZ,
{
    let rem = x % PGSZ;
    if rem == 0 {
        Some(x)
    } else if x - rem <= u64::MAX - PGSZ {
        Some(x - rem + PGSZ)
    } else {
        None
    }
}

} // verus!
