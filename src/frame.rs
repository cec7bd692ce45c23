//! Physical page frames and the pool that hands them out.
//!
//! A frame is an exclusively owned handle to one 4096-byte page, seen here
//! as its 512 translation-entry words. The pool carves frames out of a range
//! of physical memory, never hands out a page that is still out, and takes
//! pages back when their owner releases them.

use vstd::prelude::*;

use crate::address::{is_frame_address, PhysicalMemoryAddress, PA_LIMIT};
use crate::layout::PGSZ;
use crate::sv39::PageTableEntry;

verus! {

/// Number of entries in one page-table page.
pub const ENTRIES_PER_TABLE: usize = 512;

/// The 512 zero words of a freshly allocated page.
pub open spec fn zeroed_entries() -> Seq<PageTableEntry> {
    Seq::new(512, |i: int| PageTableEntry { bits: 0 })
}

/// Byte `i` of a page whose words are `words`, read little-endian.
pub open spec fn byte_of(words: Seq<PageTableEntry>, i: int) -> u8 {
    ((words[i / 8].bits >> (8 * (i % 8)) as u64) & 0xff) as u8
}

/// Replacing byte lane `s` of a word changes that lane to `b` and keeps
/// every other lane.
proof fn lemma_set_byte(w: u64, b: u64, s: u64)
    requires
        b < 256,
        s < 64,
        s % 8 == 0,
    ensures
        ((((w & !(0xffu64 << s)) | (b << s)) >> s) & 0xff) == b,
        forall|t: u64|
            t < 64 && t % 8 == 0 && t != s ==> #[trigger] ((((w & !(0xffu64 << s)) | (b << s)) >> t)
                & 0xff) == ((w >> t) & 0xff),
{
    assert(b < 256 && s < 64 && s % 8 == 0 ==> ((((w & !(0xffu64 << s)) | (b << s)) >> s) & 0xff)
        == b) by (bit_vector);
    assert forall|t: u64|
        t < 64 && t % 8 == 0 && t != s implies #[trigger] ((((w & !(0xffu64 << s)) | (b << s)) >> t)
            & 0xff) == ((w >> t) & 0xff) by {
        assert(b < 256 && s < 64 && s % 8 == 0 && t < 64 && t % 8 == 0 && t != s ==> ((((w & !(0xffu64
            << s)) | (b << s)) >> t) & 0xff) == ((w >> t) & 0xff)) by (bit_vector);
    }
}

/// Every byte of a zero-filled page is zero.
pub proof fn lemma_zeroed_bytes()
    ensures
        forall|i: int| 0 <= i < 4096 ==> #[trigger] byte_of(zeroed_entries(), i) == 0,
{
    assert forall|i: int| 0 <= i < 4096 implies #[trigger] byte_of(zeroed_entries(), i) == 0 by {
        let s = (8 * (i % 8)) as u64;
        assert((0u64 >> s) & 0xff == 0) by (bit_vector);
    }
}

/// The typed view of one page as 512 translation entries.
pub struct PageTable {
    entrys: Vec<PageTableEntry>,
}

impl View for PageTable {
    type V = Seq<PageTableEntry>;

    closed spec fn view(&self) -> Seq<PageTableEntry> {
        self.entrys@
    }
}

impl PageTable {
    /// A table of 512 invalid entries.
    pub fn zeroed() -> (r: Self)
        ensures
            r@ == zeroed_entries(),
    {
        let mut entrys: Vec<PageTableEntry> = Vec::new();
        let mut i: usize = 0;
        while i < ENTRIES_PER_TABLE
            invariant
                i <= ENTRIES_PER_TABLE,
                entrys@ == Seq::new(i as nat, |j: int| PageTableEntry { bits: 0 }),
            decreases ENTRIES_PER_TABLE - i,
        {
            entrys.push(PageTableEntry { bits: 0 });
            i = i + 1;
        }
        PageTable { entrys }
    }

    /// The entry at `index`.
    pub fn get(&self, index: usize) -> (r: &PageTableEntry)
        requires
            index < self@.len(),
        ensures
            *r == self@[index as int],
    {
        &self.entrys[index]
    }

    /// Mutable access to the entry at `index`; the table keeps whatever is
    /// written through it.
    pub fn get_index(&mut self, index: usize) -> (r: &mut PageTableEntry)
        requires
            index < old(self)@.len(),
        ensures
            *r == old(self)@[index as int],
            final(self)@ == old(self)@.update(index as int, *final(r)),
    {
        &mut self.entrys[index]
    }
}

/// The exclusive handle to one physical page.
pub struct PageFrame {
    address: PhysicalMemoryAddress,
    table: PageTable,
}

impl PageFrame {
    /// The physical address of the page.
    pub closed spec fn spec_address(&self) -> u64 {
        self.address.0
    }

    /// The contents of the page, as entry words.
    pub closed spec fn entries(&self) -> Seq<PageTableEntry> {
        self.table@
    }

    /// A page-aligned address inside physical memory, and a full page of words.
    pub open spec fn wf(&self) -> bool {
        is_frame_address(self.spec_address()) && self.entries().len() == 512
    }

    /// The physical address of the page.
    pub fn address(&self) -> (r: PhysicalMemoryAddress)
        ensures
            r.0 == self.spec_address(),
    {
        self.address
    }

    /// The physical address of the page (same as `address`).
    pub fn to_pma(&self) -> (r: PhysicalMemoryAddress)
        ensures
            r.0 == self.spec_address(),
    {
        self.address
    }

    /// The page seen as a page table.
    pub fn table(&self) -> (r: &PageTable)
        ensures
            r@ == self.entries(),
    {
        &self.table
    }

    /// Byte `i` of the page, the words read little-endian.
    pub open spec fn byte(&self, i: int) -> u8 {
        byte_of(self.entries(), i)
    }

    /// Byte `i` of the page.
    pub fn read_byte(&self, i: usize) -> (r: u8)
        requires
            self.wf(),
            i < 4096,
        ensures
            r == self.byte(i as int),
    {
        let w = self.table.get(i / 8).bits;
        ((w >> (8 * (i % 8)) as u64) & 0xff) as u8
    }

    /// Writes `b` to byte `i` of the page; the other bytes and the address stay.
    pub fn write_byte(&mut self, i: usize, b: u8)
        requires
            old(self).wf(),
            i < 4096,
        ensures
            final(self).wf(),
            final(self).spec_address() == old(self).spec_address(),
            final(self).byte(i as int) == b,
            forall|j: int| 0 <= j < 4096 && j != i ==> #[trigger] final(self).byte(j) == old(self).byte(j),
    {
        let k = i / 8;
        let s: u64 = (8 * (i % 8)) as u64;
        let w = self.table.get(k).bits;
        let nw = (w & !(0xffu64 << s)) | ((b as u64) << s);
        proof {
            lemma_set_byte(w, b as u64, s);
        }
        self.table.get_index(k).bits = nw;
        proof {
            assert forall|j: int| 0 <= j < 4096 && j != i implies #[trigger] self.byte(j) == old(
                self,
            ).byte(j) by {
                if j / 8 == k as int {
                    let t: u64 = (8 * (j % 8)) as u64;
                    assert(t != s);
                    assert(((nw >> t) & 0xff) == ((w >> t) & 0xff));
                }
            }
        }
    }

    /// Copies `src` into the page from byte `offset` on; the other bytes and
    /// the address stay.
    pub fn write_bytes(&mut self, offset: usize, src: &[u8])
        requires
            old(self).wf(),
            offset + src@.len() <= 4096,
        ensures
            final(self).wf(),
            final(self).spec_address() == old(self).spec_address(),
            forall|j: int|
                0 <= j < 4096 ==> #[trigger] final(self).byte(j) == if offset <= j < offset
                    + src@.len() {
                    src@[j - offset]
                } else {
                    old(self).byte(j)
                },
    {
        let mut n: usize = 0;
        while n < src.len()
            invariant
                self.wf(),
                self.spec_address() == old(self).spec_address(),
                offset + src@.len() <= 4096,
                n <= src@.len(),
                forall|j: int|
                    0 <= j < 4096 ==> #[trigger] self.byte(j) == if offset <= j < offset + n {
                        src@[j - offset]
                    } else {
                        old(self).byte(j)
                    },
            decreases src@.len() - n,
        {
            self.write_byte(offset + n, src[n]);
            n = n + 1;
        }
    }

    /// Mutable access to entry `k` of the page; the address stays.
    pub fn entry_mut(&mut self, k: usize) -> (r: &mut PageTableEntry)
        requires
            k < old(self).entries().len(),
        ensures
            *r == old(self).entries()[k as int],
            final(self).spec_address() == old(self).spec_address(),
            final(self).entries() == old(self).entries().update(k as int, *final(r)),
    {
        self.table.get_index(k)
    }

    /// Entry `k` of the page.
    pub fn entry(&self, k: usize) -> (r: &PageTableEntry)
        requires
            k < self.entries().len(),
        ensures
            *r == self.entries()[k as int],
    {
        self.table.get(k)
    }

    /// Mutable access to the page seen as a page table; the address stays.
    pub fn table_mut(&mut self) -> (r: &mut PageTable)
        ensures
            r@ == old(self).entries(),
            final(self).spec_address() == old(self).spec_address(),
            final(self).entries() == final(r)@,
    {
        &mut self.table
    }
}

/// The pool of physical pages that frames are drawn from.
pub struct FramePool {
    base: u64,
    next: u64,
    end: u64,
    free: Vec<u64>,
    issued: Ghost<Set<u64>>,
}

impl FramePool {
    /// Addresses of the frames that are out and not yet released.
    pub closed spec fn outstanding(&self) -> Set<u64> {
        self.issued@
    }

    /// Number of frames the pool can still hand out.
    pub closed spec fn available(&self) -> nat {
        ((self.end - self.next) / 4096) as nat + self.free@.len()
    }

    pub closed spec fn wf(&self) -> bool {
        &&& self.base % 4096 == 0
        &&& self.next % 4096 == 0
        &&& self.end % 4096 == 0
        &&& 4096 <= self.base <= self.next <= self.end <= PA_LIMIT
        &&& self.issued@.finite()
        &&& self.free@.len() + self.issued@.len() == (self.next - self.base) / 4096
        &&& forall|i: int|
            0 <= i < self.free@.len() ==> {
                &&& is_frame_address(#[trigger] self.free@[i])
                &&& self.base <= self.free@[i] < self.next
                &&& !self.issued@.contains(self.free@[i])
            }
        &&& forall|i: int, j: int|
            0 <= i < self.free@.len() && 0 <= j < self.free@.len() && i != j ==> self.free@[i]
                != self.free@[j]
        &&& forall|a: u64| #[trigger] self.issued@.contains(a) ==> self.base <= a < self.next
    }

    /// A pool over the whole pages inside `[start, end)`, clipped to the
    /// physical address space.
    pub fn new(start: u64, end: u64) -> (r: Self)
        ensures
            r.wf(),
            r.outstanding() == Set::<u64>::empty(),
            r.available() == pages_between(start, end),
    {
        // page zero is never handed out: address 0 stays the null address
        let start = if start < PGSZ {
            PGSZ
        } else {
            start
        };
        let top = if end < PA_LIMIT {
            end
        } else {
            PA_LIMIT
        };
        let last = top - top % PGSZ;
        let rem = start % PGSZ;
        let first = if rem == 0 {
            start
        } else if start - rem <= last {
            start - rem + PGSZ
        } else {
            last
        };
        let (first, last) = if PGSZ <= first && first <= last {
            (first, last)
        } else {
            (PGSZ, PGSZ)
        };
        FramePool {
            base: first,
            next: first,
            end: last,
            free: Vec::new(),
            issued: Ghost(Set::empty()),
        }
    }

    /// Number of frames the pool can still hand out.
    pub fn available_frames(&self) -> (r: u64)
        requires
            self.wf(),
        ensures
            r == self.available(),
    {
        let bump = (self.end - self.next) / PGSZ;
        assert(bump <= 0x1000_0000_0000 && self.free@.len() <= 0x1000_0000_0000) by {
            assert(self.end - self.next <= PA_LIMIT);
            assert(self.next - self.base <= PA_LIMIT);
        }
        bump + self.free.len() as u64
    }

    /// A zero-filled frame, or `None` when every page is out.
    pub fn allocate(&mut self) -> (r: Option<PageFrame>)
        requires
            old(self).wf(),
        ensures
            final(self).wf(),
            r is None <==> old(self).available() == 0,
            r is None ==> *final(self) == *old(self),
            r matches Some(f) ==> {
                &&& f.wf()
                &&& f.spec_address() != 0
                &&& f.entries() == zeroed_entries()
                &&& !old(self).outstanding().contains(f.spec_address())
                &&& final(self).outstanding() == old(self).outstanding().insert(f.spec_address())
                &&& final(self).available() + 1 == old(self).available()
            },
    {
        let len = self.free.len();
        if len > 0 {
            let a = self.free.pop().unwrap();
            proof {
                assert(self.free@ == old(self).free@.subrange(0, len as int - 1));
                assert(a == old(self).free@[len as int - 1]);
                assert(!self.issued@.contains(a));
                self.issued@ = self.issued@.insert(a);
                assert forall|i: int| 0 <= i < self.free@.len() implies !self.issued@.contains(
                    #[trigger] self.free@[i]) by {
                    assert(old(self).free@[i] != old(self).free@[len as int - 1]);
                }
            }
            Some(PageFrame { address: PhysicalMemoryAddress(a), table: PageTable::zeroed() })
        } else if self.next < self.end {
            let a = self.next;
            self.next = self.next + PGSZ;
            proof {
                assert(!self.issued@.contains(a));
                self.issued@ = self.issued@.insert(a);
                assert((self.next - self.base) / 4096 == (old(self).next - self.base) / 4096 + 1);
            }
            Some(PageFrame { address: PhysicalMemoryAddress(a), table: PageTable::zeroed() })
        } else {
            None
        }
    }

    /// Takes back a frame that this pool handed out.
    pub fn release(&mut self, frame: PageFrame)
        requires
            old(self).wf(),
            frame.wf(),
            old(self).outstanding().contains(frame.spec_address()),
        ensures
            final(self).wf(),
            final(self).outstanding() == old(self).outstanding().remove(frame.spec_address()),
            final(self).available() == old(self).available() + 1,
    {
        let a = frame.address.0;
        proof {
            self.issued@ = self.issued@.remove(a);
        }
        self.free.push(a);
        proof {
            assert forall|i: int, j: int|
                0 <= i < self.free@.len() && 0 <= j < self.free@.len() && i != j implies self.free@[i]
                    != self.free@[j] by {
                if i < old(self).free@.len() && j < old(self).free@.len() {
                } else if i < old(self).free@.len() {
                    assert(!old(self).issued@.contains(old(self).free@[i]));
                } else {
                    assert(!old(self).issued@.contains(old(self).free@[j]));
                }
            }
        }
    }
}

/// Number of whole pages inside `[start, end)` once `end` is clipped to the
/// physical address space.
pub open spec fn pages_between(start: u64, end: u64) -> nat {
    let top: int = if end < PA_LIMIT {
        end as int
    } else {
        PA_LIMIT as int
    };
    let last: int = top - top % 4096;
    let start: int = if start < 4096 {
        4096
    } else {
        start as int
    };
    let first: int = if start % 4096 == 0 {
        start
    } else {
        start - start % 4096 + 4096
    };
    if first <= last {
        ((last - first) / 4096) as nat
    } else {
        0
    }
}

/// Something that can be drawn from a frame pool.
pub trait FrameAllocator: Sized {
    fn allocate(pool: &mut FramePool) -> (r: Option<Self>)
        requires
            old(pool).wf(),
        ensures
            final(pool).wf(),
            r is None <==> old(pool).available() == 0,
            r is None ==> *final(pool) == *old(pool),
            r is Some ==> final(pool).available() + 1 == old(pool).available(),
            old(pool).outstanding().subset_of(final(pool).outstanding()),
    ;
}

impl FrameAllocator for PageFrame {
    fn allocate(pool: &mut FramePool) -> (r: Option<Self>) {
        pool.allocate()
    }
}

/// A zero-filled frame from `pool`, or `None` when it is exhausted.
pub fn alloc_page(pool: &mut FramePool) -> (r: Option<PageFrame>)
    requires
        old(pool).wf(),
    ensures
        final(pool).wf(),
        r is None <==> old(pool).available() == 0,
        r is None ==> *final(pool) == *old(pool),
        r matches Some(f) ==> {
            &&& f.wf()
            &&& f.spec_address() != 0
            &&& f.entries() == zeroed_entries()
            &&& !old(pool).outstanding().contains(f.spec_address())
            &&& final(pool).outstanding() == old(pool).outstanding().insert(f.spec_address())
            &&& final(pool).available() + 1 == old(pool).available()
        },
{
    pool.allocate()
}

/// One page used as a stack.
pub struct StackFrame {
    page: PageFrame,
}

impl StackFrame {
    /// A stack on a fresh zero-filled page, or `None` when the pool is exhausted.
    pub fn new(pool: &mut FramePool) -> (r: Option<Self>)
        requires
            old(pool).wf(),
        ensures
            final(pool).wf(),
            r is None <==> old(pool).available() == 0,
            r matches Some(s) ==> s.page().wf() && !old(pool).outstanding().contains(
                s.page().spec_address()),
    {
        match pool.allocate() {
            Some(page) => Some(StackFrame { page }),
            None => None,
        }
    }

    pub closed spec fn page(&self) -> PageFrame {
        self.page
    }

    /// The physical address of the lowest byte of the stack page.
    pub fn base(&self) -> (r: PhysicalMemoryAddress)
        ensures
            r.0 == self.page().spec_address(),
    {
        self.page.address()
    }
}

} // verus!
