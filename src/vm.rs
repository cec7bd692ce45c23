//! Address-space builders: the identity-mapped kernel space and the
//! private space of one user task.

use vstd::prelude::*;

use crate::address::{
    is_frame_address, lemma_pa_ppn_bound, pa_ppn, va_vpn, PhysicalMemoryAddress,
    VirtualMemoryAddress, PA_LIMIT, VA_LIMIT,
};
use crate::frame::{byte_of, lemma_zeroed_bytes, FramePool};
use crate::layout::{spec_kstack, HEAP_TOP, PGSZ, TRAMPOLINE, TRAPFRAME};
use crate::pagetable::{
    adds_only_fresh, lemma_fresh_trans, lemma_grows_refl, lemma_grows_trans, range_end, range_fits, range_vpn, range_mapped, range_pages, range_start, stack_vpn, stacks_mapped,
    PageTableErr, PageTableFrame,
};
use crate::sv39::{pte_valid, pte_word};
use crate::satp::Satp;
use crate::sv39::{PTE_FLAG_R, PTE_FLAG_V, PTE_FLAG_W, PTE_FLAG_X};

verus! {

/// Flags of kernel text pages.
pub const TEXT_FLAGS: u64 = 0xf;

/// Flags of kernel data pages (read-only data included).
pub const DATA_FLAGS: u64 = 0x7;

/// Flags of the trampoline page.
pub const TRAMPOLINE_FLAGS: u64 = 0xb;

/// Flags of a task's trap-frame page.
pub const TRAPFRAME_FLAGS: u64 = 0xf;

/// Segment boundaries of the kernel image, as the linker placed them.
#[derive(Debug, Clone, Copy)]
pub struct KernelLayout {
    pub stext: u64,
    pub etext: u64,
    pub srodata: u64,
    pub erodata: u64,
    pub sdata: u64,
    pub edata: u64,
    /// Physical page of the trap entry/exit code.
    pub strampsec: u64,
}

impl KernelLayout {
    /// Each segment ends after it starts, and the kernel image ends below
    /// the heap ceiling.
    pub open spec fn wf(&self) -> bool {
        &&& self.stext <= self.etext
        &&& self.srodata <= self.erodata
        &&& self.sdata <= self.edata
        &&& self.edata <= HEAP_TOP
    }
}

impl KernelLayout {
    /// The segments are page-aligned and follow each other in this order
    /// below the heap ceiling.
    pub open spec fn page_ordered(&self) -> bool {
        &&& self.stext % 4096 == 0
        &&& self.etext % 4096 == 0
        &&& self.srodata % 4096 == 0
        &&& self.erodata % 4096 == 0
        &&& self.sdata % 4096 == 0
        &&& self.edata % 4096 == 0
        &&& self.stext <= self.etext <= self.srodata <= self.erodata <= self.sdata <= self.edata
            <= HEAP_TOP
    }

    /// Frames that building the kernel space may take, at most: two tables
    /// per identity-mapped page, plus the trampoline and the kernel stacks.
    pub open spec fn frames_needed(&self) -> int {
        2 * ((HEAP_TOP - self.stext) / 4096) + 2 + 192
    }
}

/// An identity mapping of the range `[start, end)` added to `m`.
pub open spec fn identity_mapped(m: Map<u64, u64>, start: u64, end: u64, flags: u64) -> Map<
    u64,
    u64,
> {
    range_mapped(
        m,
        range_start(start) / 4096,
        range_start(start) / 4096,
        range_pages(start, (end - start) as u64),
        flags,
    )
}

/// The kernel translation added to `m`: text, trampoline, read-only data,
/// data, the rest of RAM up to the heap ceiling, and the kernel stacks.
pub open spec fn kernel_mapped(m: Map<u64, u64>, l: KernelLayout) -> Map<u64, u64> {
    let text = identity_mapped(m, l.stext, l.etext, TEXT_FLAGS);
    let tramp = range_mapped(
        text,
        TRAMPOLINE as int / 4096,
        range_start(l.strampsec) / 4096,
        1,
        TRAMPOLINE_FLAGS,
    );
    let rodata = identity_mapped(tramp, l.srodata, l.erodata, DATA_FLAGS);
    let data = identity_mapped(rodata, l.sdata, l.edata, DATA_FLAGS);
    let rest = identity_mapped(data, l.edata, HEAP_TOP, DATA_FLAGS);
    stacks_mapped(rest, 32)
}

/// The pages of an identity-mapped, page-aligned range are the page
/// numbers from its start to its end.
proof fn lemma_identity_pages(start: u64, end: u64)
    requires
        start % 4096 == 0,
        end % 4096 == 0,
        start <= end,
    ensures
        range_start(start) == start,
        range_pages(start, (end - start) as u64) == (end - start) / 4096,
        range_start(start) / 4096 + range_pages(start, (end - start) as u64) == end / 4096,
{
}

/// Every kernel stack page lies above the heap ceiling and below the
/// trampoline page.
proof fn lemma_stack_above_heap(pid: nat)
    requires
        pid < 32,
    ensures
        HEAP_TOP / 4096 < stack_vpn(pid),
        stack_vpn(pid) + 3 <= TRAMPOLINE / 4096,
{
    assert(stack_vpn(pid) == 0x3ff_fff9 - 4 * pid) by {
        assert(spec_kstack(pid) == 0x3f_ffff_9000 - pid * 0x4000);
    }
}

/// `m` maps page `vpn` to entry word `e` when `e` is valid, and leaves it
/// unmapped when `e` is not.
pub open spec fn maps_to(m: Map<u64, u64>, vpn: u64, e: u64) -> bool {
    m.contains_key(vpn) == pte_valid(e) && (pte_valid(e) ==> m[vpn] == e)
}

/// Byte `g` of the image `code` placed at virtual address `va`; zero
/// outside the image.
pub open spec fn image_byte(va: u64, code: Seq<u8>, g: int) -> u8 {
    if va <= g < va + code.len() {
        code[g - va]
    } else {
        0
    }
}

/// The tree keeps a data page at `a` holding page `i` of the image `code`
/// placed at `va`.
pub open spec fn holds_image_page(t: PageTableFrame, a: u64, va: u64, code: Seq<u8>, i: int) -> bool {
    &&& t.data_pages().contains_key(a)
    &&& forall|x: int|
        0 <= x < 4096 ==> #[trigger] byte_of(t.data_pages()[a], x) == image_byte(
            va,
            code,
            range_start(va) + i * 4096 + x,
        )
}

/// Page `i` of the range that starts at the page of `va` is mapped with
/// `flags` to a frame that was not in `taken`, which the tree keeps with
/// page `i` of the image `code` placed at `va`.
pub open spec fn image_page_mapped(
    t: PageTableFrame,
    taken: Set<u64>,
    va: u64,
    code: Seq<u8>,
    i: int,
    flags: u64,
) -> bool {
    exists|a: u64|
        is_frame_address(a) && !taken.contains(a) && #[trigger] maps_to(
            t@,
            range_vpn(va, i),
            pte_word(pa_ppn(a), flags),
        ) && holds_image_page(t, a, va, code, i)
}

/// Pages `0 .. n` of the range that starts at the page of `va` are mapped,
/// page `i` to frame `addrs[i]`: the frames are pairwise distinct, were not
/// in `taken`, and hold their parts of the image `code`.
pub open spec fn image_pages_at(
    t: PageTableFrame,
    taken: Set<u64>,
    va: u64,
    code: Seq<u8>,
    n: int,
    flags: u64,
    addrs: Seq<u64>,
) -> bool {
    &&& addrs.len() == n
    &&& forall|i: int, j: int| 0 <= i < n && 0 <= j < n && i != j ==> addrs[i] != addrs[j]
    &&& forall|i: int|
        0 <= i < n ==> is_frame_address(#[trigger] addrs[i]) && !taken.contains(addrs[i]) && maps_to(
            t@,
            range_vpn(va, i),
            pte_word(pa_ppn(addrs[i]), flags),
        ) && holds_image_page(t, addrs[i], va, code, i)
}

/// Pages `0 .. n` of the range that starts at the page of `va` are mapped to
/// pairwise distinct fresh frames holding the image `code`, as
/// `image_pages_at` says for some sequence of frames.
pub open spec fn image_pages_mapped(
    t: PageTableFrame,
    taken: Set<u64>,
    va: u64,
    code: Seq<u8>,
    n: int,
    flags: u64,
) -> bool {
    exists|addrs: Seq<u64>| #[trigger] image_pages_at(t, taken, va, code, n, flags, addrs)
}

/// `m` agrees with `m0` on every page outside `vpn0 .. vpn0 + n`.
pub open spec fn kept_outside(m: Map<u64, u64>, m0: Map<u64, u64>, vpn0: int, n: int) -> bool {
    forall|v: u64|
        !(vpn0 <= v < vpn0 + n) ==> #[trigger] m.contains_key(v) == m0.contains_key(v) && (
        m0.contains_key(v) ==> m[v] == m0[v])
}

/// The SATP value that installs, in Sv39 mode, the tree rooted at `root`.
pub open spec fn satp_of(root: u64) -> u64 {
    (8u64 << 60u64) | pa_ppn(root)
}

/// The kernel address space: every kernel-owned physical page mapped at the
/// virtual address equal to its physical one.
pub struct Kvm {
    pagetables: PageTableFrame,
}

impl Kvm {
    pub closed spec fn tree(&self) -> PageTableFrame {
        self.pagetables
    }

    pub open spec fn wf(&self, pool: FramePool) -> bool {
        self.tree().wf() && self.tree().owned_by(pool)
    }

    /// An empty kernel space on a fresh root table, or `None` when the pool
    /// is exhausted.
    pub fn new(pool: &mut FramePool) -> (r: Option<Self>)
        requires
            old(pool).wf(),
        ensures
            final(pool).wf(),
            r is None <==> old(pool).available() == 0,
            r matches Some(k) ==> k.wf(*final(pool)) && k.tree()@ == Map::<u64, u64>::empty(),
    {
        match PageTableFrame::new(pool) {
            Some(t) => Some(Kvm { pagetables: t }),
            None => None,
        }
    }

    /// Builds the kernel mappings: text (readable, writable, executable),
    /// the trampoline page at the top of the space, read-only data and data
    /// (readable, writable), the rest of RAM up to the heap ceiling, and the
    /// kernel stacks. Stops at the first range that cannot be mapped.
    pub fn init(&mut self, layout: &KernelLayout, pool: &mut FramePool) -> (r: Result<(), PageTableErr>)
        requires
            old(self).wf(*old(pool)),
            old(pool).wf(),
            layout.wf(),
        ensures
            final(self).wf(*final(pool)),
            final(pool).wf(),
            r is Ok ==> final(self).tree()@ == kernel_mapped(old(self).tree()@, *layout),
            r is Err ==> r == Err::<(), PageTableErr>(PageTableErr::AlreadyMap) || r == Err::<
                (),
                PageTableErr,
            >(PageTableErr::OutOfMemory) || r == Err::<(), PageTableErr>(PageTableErr::OutOfRange),
            old(self).tree()@ == Map::<u64, u64>::empty() && layout.page_ordered() && layout.strampsec
                <= PA_LIMIT - 4096 && old(pool).available() >= layout.frames_needed() ==> r is Ok,
    {
        let ghost owed = old(self).tree()@ == Map::<u64, u64>::empty() && layout.page_ordered()
            && layout.strampsec <= PA_LIMIT - 4096 && old(pool).available() >= layout.frames_needed();
        let ghost l = *layout;
        let ghost avail0 = old(pool).available();
        proof {
            assert(PTE_FLAG_R | PTE_FLAG_W | PTE_FLAG_X | PTE_FLAG_V == TEXT_FLAGS
                && PTE_FLAG_X | PTE_FLAG_R | PTE_FLAG_V == TRAMPOLINE_FLAGS && PTE_FLAG_R | PTE_FLAG_W
                | PTE_FLAG_V == DATA_FLAGS) by (bit_vector);
            assert(range_pages(TRAMPOLINE, PGSZ) == 1);
            assert(range_start(TRAMPOLINE) == TRAMPOLINE);
        }
        let t = &mut self.pagetables;
        // text
        let ghost m0 = t@;
        t.mappages(
            VirtualMemoryAddress(layout.stext),
            PhysicalMemoryAddress(layout.stext),
            layout.etext - layout.stext,
            PTE_FLAG_R | PTE_FLAG_W | PTE_FLAG_X | PTE_FLAG_V,
            pool,
        )?;
        let ghost m1 = t@;
        proof {
            if owed {
                lemma_identity_pages(l.stext, l.etext);
            }
        }
        // trampoline
        let r2 = t.mappages(
            VirtualMemoryAddress(TRAMPOLINE),
            PhysicalMemoryAddress(layout.strampsec),
            PGSZ,
            PTE_FLAG_X | PTE_FLAG_R | PTE_FLAG_V,
            pool,
        );
        proof {
            if owed && r2 is Err {
                assert(range_fits(TRAMPOLINE, l.strampsec, PGSZ));
                if r2 == Err::<(), PageTableErr>(PageTableErr::AlreadyMap) {
                    let i = choose|i: int|
                        0 <= i < range_pages(TRAMPOLINE, PGSZ) && #[trigger] m1.contains_key(
                            (range_start(TRAMPOLINE) / 4096 + i) as u64,
                        );
                    assert(m1.contains_key((TRAMPOLINE / 4096) as u64));
                }
            }
        }
        r2?;
        let ghost m2 = t@;
        // read-only data
        let r3 = t.mappages(
            VirtualMemoryAddress(layout.srodata),
            PhysicalMemoryAddress(layout.srodata),
            layout.erodata - layout.srodata,
            PTE_FLAG_R | PTE_FLAG_W | PTE_FLAG_V,
            pool,
        );
        proof {
            if owed {
                lemma_identity_pages(l.srodata, l.erodata);
                if r3 == Err::<(), PageTableErr>(PageTableErr::AlreadyMap) {
                    let i = choose|i: int|
                        0 <= i < range_pages(l.srodata, (l.erodata - l.srodata) as u64)
                            && #[trigger] m2.contains_key((range_start(l.srodata) / 4096 + i) as u64);
                }
            }
        }
        r3?;
        let ghost m3 = t@;
        // data
        let r4 = t.mappages(
            VirtualMemoryAddress(layout.sdata),
            PhysicalMemoryAddress(layout.sdata),
            layout.edata - layout.sdata,
            PTE_FLAG_R | PTE_FLAG_W | PTE_FLAG_V,
            pool,
        );
        proof {
            if owed {
                lemma_identity_pages(l.sdata, l.edata);
                if r4 == Err::<(), PageTableErr>(PageTableErr::AlreadyMap) {
                    let i = choose|i: int|
                        0 <= i < range_pages(l.sdata, (l.edata - l.sdata) as u64)
                            && #[trigger] m3.contains_key((range_start(l.sdata) / 4096 + i) as u64);
                }
            }
        }
        r4?;
        let ghost m4 = t@;
        // the rest of RAM below the heap ceiling
        let r5 = t.mappages(
            VirtualMemoryAddress(layout.edata),
            PhysicalMemoryAddress(layout.edata),
            HEAP_TOP - layout.edata,
            PTE_FLAG_R | PTE_FLAG_W | PTE_FLAG_V,
            pool,
        );
        proof {
            if owed {
                lemma_identity_pages(l.edata, HEAP_TOP);
                if r5 == Err::<(), PageTableErr>(PageTableErr::AlreadyMap) {
                    let i = choose|i: int|
                        0 <= i < range_pages(l.edata, (HEAP_TOP - l.edata) as u64)
                            && #[trigger] m4.contains_key((range_start(l.edata) / 4096 + i) as u64);
                }
            }
        }
        r5?;
        let ghost m5 = t@;
        proof {
            if owed {
                assert forall|pid: nat, i: int| pid < 32 && 0 <= i < 3 implies !#[trigger] m5.contains_key(
                    (stack_vpn(pid) + i) as u64) by {
                    lemma_stack_above_heap(pid);
                }
            }
        }
        t.map_proc_stacks(pool)?;
        Ok(())
    }

    /// The SATP value that switches a hart onto this space.
    pub fn as_satp(&self) -> (r: Satp)
        ensures
            r.bits == satp_of(self.tree().root_address()),
    {
        let ppn = self.pagetables.root().to_ppn();
        proof {
            lemma_pa_ppn_bound(self.tree().root_address());
        }
        Satp::for_root(ppn.0)
    }

    /// The page-table tree of the space.
    pub fn pagetables(&self) -> (r: &PageTableFrame)
        ensures
            *r == self.tree(),
    {
        &self.pagetables
    }

    /// Mutable access to the page-table tree of the space.
    pub fn pagetables_mut(&mut self) -> (r: &mut PageTableFrame)
        ensures
            *r == old(self).tree(),
            final(self).tree() == *final(r),
    {
        &mut self.pagetables
    }
}

/// The private address space of one user task.
pub struct Uvm {
    pagetables: PageTableFrame,
}

impl Uvm {
    pub closed spec fn tree(&self) -> PageTableFrame {
        self.pagetables
    }

    pub open spec fn wf(&self, pool: FramePool) -> bool {
        self.tree().wf() && self.tree().owned_by(pool)
    }

    /// An empty user space on a fresh root table, or `None` when the pool
    /// is exhausted.
    pub fn new(pool: &mut FramePool) -> (r: Option<Self>)
        requires
            old(pool).wf(),
        ensures
            final(pool).wf(),
            r is None <==> old(pool).available() == 0,
            r matches Some(u) ==> u.wf(*final(pool)) && u.tree()@ == Map::<u64, u64>::empty(),
            r is Some ==> final(pool).available() + 1 == old(pool).available(),
            old(pool).outstanding().subset_of(final(pool).outstanding()),
            r matches Some(u) ==> forall|a: u64|
                #[trigger] u.tree().addresses().contains(a) ==> !old(pool).outstanding().contains(a),
    {
        match PageTableFrame::new(pool) {
            Some(t) => Some(Uvm { pagetables: t }),
            None => None,
        }
    }

    /// Maps the trampoline page (at the same virtual page as in the kernel
    /// space) and, below it, the task's trap-frame page at physical address
    /// `trapframe`, which the task owns.
    pub fn map_trap(&mut self, trapframe: u64, strampsec: u64, pool: &mut FramePool) -> (r: Result<
        (),
        PageTableErr,
    >)
        requires
            old(self).wf(*old(pool)),
            old(pool).wf(),
        ensures
            final(self).wf(*final(pool)),
            final(pool).wf(),
            r is Ok ==> final(self).tree()@ == range_mapped(
                range_mapped(
                    old(self).tree()@,
                    TRAMPOLINE as int / 4096,
                    range_start(strampsec) / 4096,
                    1,
                    TRAMPOLINE_FLAGS,
                ),
                TRAPFRAME as int / 4096,
                range_start(trapframe) / 4096,
                1,
                TRAPFRAME_FLAGS,
            ),
            r is Err ==> r == Err::<(), PageTableErr>(PageTableErr::AlreadyMap) || r == Err::<
                (),
                PageTableErr,
            >(PageTableErr::OutOfMemory) || r == Err::<(), PageTableErr>(PageTableErr::OutOfRange),
            r == Err::<(), PageTableErr>(PageTableErr::AlreadyMap) ==> old(self).tree()@.contains_key(
                (TRAMPOLINE / 4096) as u64,
            ) || old(self).tree()@.contains_key((TRAPFRAME / 4096) as u64),
            !old(self).tree()@.contains_key((TRAMPOLINE / 4096) as u64) && !old(
                self,
            ).tree()@.contains_key((TRAPFRAME / 4096) as u64) && strampsec <= PA_LIMIT - 4096
                && trapframe <= PA_LIMIT - 4096 && old(pool).available() >= 4 ==> r is Ok,
            final(self).tree().data_pages() == old(self).tree().data_pages(),
            old(self).tree().grows_into(final(self).tree()),
            adds_only_fresh(old(self).tree(), final(self).tree(), old(pool).outstanding()),
            old(pool).outstanding().subset_of(final(pool).outstanding()),
    {
        proof {
            assert(range_pages(TRAMPOLINE, PGSZ) == 1 && range_pages(TRAPFRAME, PGSZ) == 1);
            assert(range_start(TRAMPOLINE) == TRAMPOLINE && range_start(TRAPFRAME) == TRAPFRAME);
        }
        let ghost m0 = old(self).tree()@;
        let t = &mut self.pagetables;
        let r1 = t.mappages(
            VirtualMemoryAddress(TRAMPOLINE),
            PhysicalMemoryAddress(strampsec),
            PGSZ,
            PTE_FLAG_V | PTE_FLAG_R | PTE_FLAG_X,
            pool,
        );
        proof {
            if r1 == Err::<(), PageTableErr>(PageTableErr::AlreadyMap) {
                let i = choose|i: int|
                    0 <= i < range_pages(TRAMPOLINE, PGSZ) && #[trigger] m0.contains_key(
                        (range_start(TRAMPOLINE) / 4096 + i) as u64,
                    );
                assert(i == 0);
            }
        }
        r1?;
        let ghost m1 = t@;
        let ghost t1 = *t;
        let ghost p1 = *pool;
        let r2 = t.mappages(
            VirtualMemoryAddress(TRAPFRAME),
            PhysicalMemoryAddress(trapframe),
            PGSZ,
            PTE_FLAG_R | PTE_FLAG_W | PTE_FLAG_X | PTE_FLAG_V,
            pool,
        );
        proof {
            if r2 == Err::<(), PageTableErr>(PageTableErr::AlreadyMap) {
                let i = choose|i: int|
                    0 <= i < range_pages(TRAPFRAME, PGSZ) && #[trigger] m1.contains_key(
                        (range_start(TRAPFRAME) / 4096 + i) as u64,
                    );
                assert(i == 0);
                assert(m0.contains_key((TRAPFRAME / 4096) as u64));
            }
            lemma_grows_trans(old(self).tree(), t1, *t);
            lemma_fresh_trans(old(self).tree(), t1, *t, old(pool).outstanding(), p1.outstanding());
        }
        r2?;
        proof {
            assert(PTE_FLAG_V | PTE_FLAG_R | PTE_FLAG_X == TRAMPOLINE_FLAGS && PTE_FLAG_R | PTE_FLAG_W
                | PTE_FLAG_X | PTE_FLAG_V == TRAPFRAME_FLAGS) by (bit_vector);
        }
        Ok(())
    }

    /// Backs every page of `[va, va + size)` with a fresh frame from `pool`
    /// that holds the bytes of `code` placed at `va` and zeros elsewhere,
    /// which the space keeps, and maps it with `flags`. Stops at the first
    /// page that fails; the pages before it stay mapped.
    fn map_image(&mut self, va: u64, size: u64, code: &[u8], flags: u64, pool: &mut FramePool) -> (r:
        Result<(), PageTableErr>)
        requires
            old(self).wf(*old(pool)),
            old(pool).wf(),
            code@.len() <= size,
        ensures
            final(self).wf(*final(pool)),
            final(pool).wf(),
            !(range_end(va, size) <= VA_LIMIT) <==> r == Err::<(), PageTableErr>(
                PageTableErr::OutOfRange,
            ),
            r is Err ==> r == Err::<(), PageTableErr>(PageTableErr::OutOfRange) || r == Err::<
                (),
                PageTableErr,
            >(PageTableErr::AlreadyMap) || r == Err::<(), PageTableErr>(PageTableErr::OutOfMemory),
            r == Err::<(), PageTableErr>(PageTableErr::AlreadyMap) ==> exists|i: int|
                0 <= i < range_pages(va, size) && old(self).tree()@.contains_key(
                    #[trigger] range_vpn(va, i),
                ),
            r == Err::<(), PageTableErr>(PageTableErr::OutOfMemory) ==> old(pool).available() < 3
                * range_pages(va, size),
            r is Ok ==> final(pool).available() + 3 * range_pages(va, size) >= old(pool).available(),
            r is Ok ==> kept_outside(
                final(self).tree()@,
                old(self).tree()@,
                range_start(va) / 4096,
                range_pages(va, size),
            ),
            r is Ok ==> image_pages_mapped(
                final(self).tree(),
                old(pool).outstanding(),
                va,
                code@,
                range_pages(va, size),
                flags,
            ),
            old(self).tree().grows_into(final(self).tree()),
            adds_only_fresh(old(self).tree(), final(self).tree(), old(pool).outstanding()),
            old(pool).outstanding().subset_of(final(pool).outstanding()),
    {
        proof {
            lemma_grows_refl(old(self).tree());
        }
        if va > VA_LIMIT || size > VA_LIMIT - va {
            return Err(PageTableErr::OutOfRange);
        }
        let start = va - va % PGSZ;
        let e = va + size;
        let end = if e % PGSZ == 0 {
            e
        } else {
            e - e % PGSZ + PGSZ
        };
        if end > VA_LIMIT {
            return Err(PageTableErr::OutOfRange);
        }
        assert(start == range_start(va) && end == range_end(va, size));
        let n = (end - start) / PGSZ;
        assert(n * 4096 == end - start) by {
            assert((end - start) % 4096 == 0);
        }
        let ghost vpn0: int = start as int / 4096;
        let ghost m0 = old(self).tree()@;
        let ghost out0 = old(pool).outstanding();
        let ghost avail0 = old(pool).available();
        let ghost mut addrs: Seq<u64> = Seq::empty();
        let mut i: u64 = 0;
        while i < n
            invariant
                self.wf(*pool),
                pool.wf(),
                i <= n,
                n * 4096 == end - start,
                start % 4096 == 0,
                end <= VA_LIMIT,
                start <= end,
                vpn0 == start / 4096,
                vpn0 == range_start(va) / 4096,
                n == range_pages(va, size),
                m0 == old(self).tree()@,
                out0 == old(pool).outstanding(),
                avail0 == old(pool).available(),
                avail0 <= pool.available() + 3 * i,
                out0.subset_of(pool.outstanding()),
                forall|j: int| 0 <= j < i ==> !m0.contains_key(#[trigger] range_vpn(va, j)),
                kept_outside(self.tree()@, m0, vpn0, i as int),
                code@.len() <= size,
                addrs.len() == i,
                forall|j1: int, j2: int| 0 <= j1 < i && 0 <= j2 < i && j1 != j2 ==> addrs[j1] != addrs[j2],
                old(self).tree().grows_into(self.tree()),
                adds_only_fresh(old(self).tree(), self.tree(), out0),
                forall|j: int|
                    0 <= j < i ==> is_frame_address(#[trigger] addrs[j]) && !out0.contains(addrs[j])
                        && pool.outstanding().contains(addrs[j]) && maps_to(
                        self.tree()@,
                        range_vpn(va, j),
                        pte_word(pa_ppn(addrs[j]), flags),
                    ) && holds_image_page(self.tree(), addrs[j], va, code@, j),
            decreases n - i,
        {
            assert(i * 4096 < end - start) by (nonlinear_arith)
                requires
                    i < n,
                    n * 4096 == end - start,
            ;
            let a = start + i * PGSZ;
            proof {
                crate::address::lemma_va_vpn_div(a);
                assert(a / 4096 == vpn0 + i) by {
                    assert(a == start + i * 4096);
                }
            }
            let ghost before = self.tree();
            let ghost pool_before = *pool;
            let mut page = match pool.allocate() {
                Some(page) => page,
                None => {
                    return Err(PageTableErr::OutOfMemory);
                },
            };
            let addr = page.address();
            let ghost pool_mid = *pool;
            proof {
                lemma_zeroed_bytes();
            }
            let mut b: usize = 0;
            while b < 4096
                invariant
                    page.wf(),
                    page.spec_address() == addr.0,
                    b <= 4096,
                    a < VA_LIMIT,
                    a % 4096 == 0,
                    forall|x: int| 0 <= x < b ==> #[trigger] page.byte(x) == image_byte(va, code@, a + x),
                    forall|x: int| b <= x < 4096 ==> #[trigger] page.byte(x) == 0,
                decreases 4096 - b,
            {
                let g = a + b as u64;
                if va <= g && g - va < code.len() as u64 {
                    page.write_byte(b, code[(g - va) as usize]);
                }
                b = b + 1;
            }
            let t = &mut self.pagetables;
            proof {
                before.lemma_owned_addresses(pool_before);
                before.lemma_owned_by_grows(pool_before, *pool);
            }
            let ghost filled = page;
            t.save_page(page);
            let ghost saved = *t;
            let res = t.map(VirtualMemoryAddress(a), addr, flags, pool);
            match res {
                Ok(_) => {},
                Err(err) => {
                    proof {
                        lemma_grows_trans(old(self).tree(), before, saved);
                        lemma_grows_trans(old(self).tree(), saved, self.tree());
                        lemma_fresh_trans(old(self).tree(), before, saved, out0, pool_before.outstanding());
                        lemma_fresh_trans(old(self).tree(), saved, self.tree(), out0, pool_mid.outstanding());
                        if err == PageTableErr::AlreadyMap {
                            assert(saved@ == before@);
                            assert(m0.contains_key(range_vpn(va, i as int)));
                        }
                        if err == PageTableErr::OutOfMemory {
                            assert(saved.tables_needed(va_vpn(a)) <= 2) by {
                                saved.lemma_tables_needed_at_most_two(va_vpn(a));
                            }
                        }
                    }
                    return Err(err);
                },
            }
            proof {
                lemma_grows_trans(old(self).tree(), before, saved);
                lemma_grows_trans(old(self).tree(), saved, self.tree());
                lemma_fresh_trans(old(self).tree(), before, saved, out0, pool_before.outstanding());
                lemma_fresh_trans(old(self).tree(), saved, self.tree(), out0, pool_mid.outstanding());
                saved.lemma_tables_needed_at_most_two(va_vpn(a));
                assert(range_vpn(va, i as int) == va_vpn(a));
                assert(!m0.contains_key(range_vpn(va, i as int)));
                assert(is_frame_address(addr.0) && !out0.contains(addr.0));
                assert(maps_to(self.tree()@, range_vpn(va, i as int), pte_word(pa_ppn(addr.0), flags)));
                assert(self.tree().data_pages() == before.data_pages().insert(addr.0, filled.entries()));
                assert(holds_image_page(self.tree(), addr.0, va, code@, i as int)) by {
                    assert forall|x: int| 0 <= x < 4096 implies #[trigger] byte_of(
                        self.tree().data_pages()[addr.0],
                        x,
                    ) == image_byte(va, code@, range_start(va) + i * 4096 + x) by {
                        assert(filled.byte(x) == image_byte(va, code@, a + x));
                        assert(a == range_start(va) + i * 4096);
                    }
                }
                let old_addrs = addrs;
                addrs = addrs.push(addr.0);
                assert forall|j: int| 0 <= j < i + 1 implies is_frame_address(#[trigger] addrs[j])
                    && !out0.contains(addrs[j]) && pool.outstanding().contains(addrs[j]) && maps_to(
                    self.tree()@,
                    range_vpn(va, j),
                    pte_word(pa_ppn(addrs[j]), flags),
                ) && holds_image_page(self.tree(), addrs[j], va, code@, j) by {
                    if j < i {
                        assert(addrs[j] == old_addrs[j]);
                        assert(range_vpn(va, j) != range_vpn(va, i as int));
                        assert(maps_to(before@, range_vpn(va, j), pte_word(pa_ppn(old_addrs[j]), flags)));
                        assert(pool_before.outstanding().contains(old_addrs[j]));
                        assert(old_addrs[j] != addr.0);
                        assert(self.tree().data_pages()[addrs[j]] == before.data_pages()[addrs[j]]);
                        assert(holds_image_page(before, old_addrs[j], va, code@, j));
                    }
                }
                assert forall|j1: int, j2: int|
                    0 <= j1 < i + 1 && 0 <= j2 < i + 1 && j1 != j2 implies addrs[j1] != addrs[j2] by {
                    if j1 < i && j2 < i {
                        assert(addrs[j1] == old_addrs[j1] && addrs[j2] == old_addrs[j2]);
                    } else if j1 < i {
                        assert(pool_before.outstanding().contains(old_addrs[j1]));
                    } else {
                        assert(pool_before.outstanding().contains(old_addrs[j2]));
                    }
                }
            }
            i = i + 1;
        }
        proof {
            assert(image_pages_at(self.tree(), out0, va, code@, n as int, flags, addrs));
        }
        Ok(())
    }

    /// Backs every page of `[va, va + size)` with a fresh zero-filled frame
    /// from `pool`, which the space keeps, and maps it with `flags`. Stops at
    /// the first page that fails; the pages before it stay mapped.
    pub fn mappages(&mut self, va: u64, size: u64, flags: u64, pool: &mut FramePool) -> (r: Result<
        (),
        PageTableErr,
    >)
        requires
            old(self).wf(*old(pool)),
            old(pool).wf(),
        ensures
            final(self).wf(*final(pool)),
            final(pool).wf(),
            !(range_end(va, size) <= VA_LIMIT) <==> r == Err::<(), PageTableErr>(
                PageTableErr::OutOfRange,
            ),
            r is Err ==> r == Err::<(), PageTableErr>(PageTableErr::OutOfRange) || r == Err::<
                (),
                PageTableErr,
            >(PageTableErr::AlreadyMap) || r == Err::<(), PageTableErr>(PageTableErr::OutOfMemory),
            r == Err::<(), PageTableErr>(PageTableErr::AlreadyMap) ==> exists|i: int|
                0 <= i < range_pages(va, size) && old(self).tree()@.contains_key(
                    #[trigger] range_vpn(va, i),
                ),
            r == Err::<(), PageTableErr>(PageTableErr::OutOfMemory) ==> old(pool).available() < 3
                * range_pages(va, size),
            r is Ok ==> final(pool).available() + 3 * range_pages(va, size) >= old(pool).available(),
            r is Ok ==> kept_outside(
                final(self).tree()@,
                old(self).tree()@,
                range_start(va) / 4096,
                range_pages(va, size),
            ),
            r is Ok ==> image_pages_mapped(
                final(self).tree(),
                old(pool).outstanding(),
                va,
                Seq::<u8>::empty(),
                range_pages(va, size),
                flags,
            ),
            old(self).tree().grows_into(final(self).tree()),
            adds_only_fresh(old(self).tree(), final(self).tree(), old(pool).outstanding()),
            old(pool).outstanding().subset_of(final(pool).outstanding()),
    {
        let empty: [u8; 0] = [];
        proof {
            assert(empty@ =~= Seq::<u8>::empty());
        }
        self.map_image(va, size, &empty, flags, pool)
    }

    /// Maps the pages that `[va, va + code.len())` touches, each to a fresh
    /// frame from `pool` that holds the bytes of `code` placed at `va` (zeros
    /// around them), with `flags`. Stops at the first page that fails; the
    /// pages before it stay mapped.
    pub fn map_code(&mut self, va: u64, code: &[u8], flags: u64, pool: &mut FramePool) -> (r: Result<
        (),
        PageTableErr,
    >)
        requires
            old(self).wf(*old(pool)),
            old(pool).wf(),
        ensures
            final(self).wf(*final(pool)),
            final(pool).wf(),
            !(range_end(va, code@.len() as u64) <= VA_LIMIT) <==> r == Err::<(), PageTableErr>(
                PageTableErr::OutOfRange,
            ),
            r is Err ==> r == Err::<(), PageTableErr>(PageTableErr::OutOfRange) || r == Err::<
                (),
                PageTableErr,
            >(PageTableErr::AlreadyMap) || r == Err::<(), PageTableErr>(PageTableErr::OutOfMemory),
            r == Err::<(), PageTableErr>(PageTableErr::AlreadyMap) ==> exists|i: int|
                0 <= i < range_pages(va, code@.len() as u64) && old(self).tree()@.contains_key(
                    #[trigger] range_vpn(va, i),
                ),
            r == Err::<(), PageTableErr>(PageTableErr::OutOfMemory) ==> old(pool).available() < 3
                * range_pages(va, code@.len() as u64),
            r is Ok ==> final(pool).available() + 3 * range_pages(va, code@.len() as u64) >= old(
                pool,
            ).available(),
            r is Ok ==> kept_outside(
                final(self).tree()@,
                old(self).tree()@,
                range_start(va) / 4096,
                range_pages(va, code@.len() as u64),
            ),
            r is Ok ==> image_pages_mapped(
                final(self).tree(),
                old(pool).outstanding(),
                va,
                code@,
                range_pages(va, code@.len() as u64),
                flags,
            ),
            old(self).tree().grows_into(final(self).tree()),
            adds_only_fresh(old(self).tree(), final(self).tree(), old(pool).outstanding()),
            old(pool).outstanding().subset_of(final(pool).outstanding()),
    {
        self.map_image(va, code.len() as u64, code, flags, pool)
    }

    /// The SATP value that switches a hart onto this space.
    pub fn as_satp(&self) -> (r: Satp)
        ensures
            r.bits == satp_of(self.tree().root_address()),
    {
        let ppn = self.pagetables.root().to_ppn();
        proof {
            lemma_pa_ppn_bound(self.tree().root_address());
        }
        Satp::for_root(ppn.0)
    }

    /// The page-table tree of the space.
    pub fn pagetables(&self) -> (r: &PageTableFrame)
        ensures
            *r == self.tree(),
    {
        &self.pagetables
    }

    /// Mutable access to the page-table tree of the space.
    pub fn pagetables_mut(&mut self) -> (r: &mut PageTableFrame)
        ensures
            *r == old(self).tree(),
            final(self).tree() == *final(r),
    {
        &mut self.pagetables
    }

    /// Gives every frame of the space, its tables and its pages, back to `pool`.
    pub fn release(self, pool: &mut FramePool)
        requires
            self.wf(*old(pool)),
            old(pool).wf(),
        ensures
            final(pool).wf(),
            final(pool).available() == old(pool).available() + self.tree().frame_count(),
            forall|a: u64|
                #[trigger] self.tree().addresses().contains(a) ==> !final(pool).outstanding().contains(a),
            forall|a: u64|
                !self.tree().addresses().contains(a) ==> (#[trigger] final(pool).outstanding().contains(a)
                    == old(pool).outstanding().contains(a)),
    {
        self.pagetables.release(pool);
    }
}

} // verus!
