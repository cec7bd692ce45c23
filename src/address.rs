//! Sv39 address types: physical addresses and page numbers, virtual
//! addresses and page numbers, and their bit-field decomposition.

use vstd::prelude::*;

use crate::sv39::PageTableEntry;

verus! {

/// Width of the in-page offset.
pub const PAGE_OFFSET_WIDTH: u64 = 12;

/// Bits 0..11 of an address: the offset inside its page.
pub const PAGE_OFFSET_MASK: u64 = 0xfff;

/// Bits 12..55 of a physical address: its 44-bit page number.
pub const PA_PPN_MASK: u64 = 0x00ff_ffff_ffff_f000;

/// One past the highest physical address (56 bits).
pub const PA_LIMIT: u64 = 0x0100_0000_0000_0000;

/// Bits 12..38 of a virtual address: its 27-bit page number.
pub const VA_VPN_MASK: u64 = 0x7f_ffff_f000;

/// One past the highest Sv39 virtual address (39 bits).
pub const VA_LIMIT: u64 = 0x80_0000_0000;

/// Width of one page-table index inside a virtual page number.
pub const VPN_PART_WIDTH: u64 = 9;

/// Mask of one page-table index.
pub const VPN_PART_MASK: u64 = 0x1ff;

/// Number of virtual pages in the Sv39 space.
pub const VPN_LIMIT: u64 = 0x800_0000;

/// The page number held in bits 12..55 of physical address `pa`.
pub open spec fn pa_ppn(pa: u64) -> u64 {
    (pa & PA_PPN_MASK) >> 12u64
}

/// The page number held in bits 12..38 of virtual address `va`.
pub open spec fn va_vpn(va: u64) -> u64 {
    (va & VA_VPN_MASK) >> 12u64
}

/// The 9-bit index that virtual page number `vpn` selects in a table of `level`
/// (2 is the root, 0 the leaf table).
pub open spec fn vpn_index(vpn: u64, level: nat) -> u64 {
    (vpn >> (9 * level) as u64) & VPN_PART_MASK
}

/// The 9-bit index that virtual address `va` selects in a table of `level`.
pub open spec fn va_index(va: u64, level: nat) -> u64 {
    (va >> (12 + 9 * level) as u64) & VPN_PART_MASK
}

/// A page-aligned physical address that fits the 56-bit physical space.
pub open spec fn is_frame_address(pa: u64) -> bool {
    pa % 4096 == 0 && pa < PA_LIMIT
}

/// Physical address (PA): bits 0..11 are the offset, bits 12..55 the page number.
#[derive(Debug, Clone, Copy, Default, PartialEq, Eq, Structural)]
pub struct PhysicalMemoryAddress(pub u64);

/// Physical page number (PPN): a physical address shifted right by 12.
#[derive(Debug, Clone, Copy, Default, PartialEq, Eq, Structural)]
pub struct PhysicalPageNumber(pub u64);

/// Virtual address (VA): bits 0..11 are the offset, bits 12..38 hold the
/// three 9-bit table indices (VPN0 lowest, VPN2 highest).
#[derive(Debug, Clone, Copy, Default, PartialEq, Eq, Structural)]
pub struct VirtualMemoryAddress(pub u64);

/// Virtual page number (VPN): a virtual address shifted right by 12.
#[derive(Debug, Clone, Copy, Default, PartialEq, Eq, Structural)]
pub struct VirtualPageNumber(pub u64);

impl PhysicalMemoryAddress {
    /// The null physical address.
    pub fn new() -> (r: Self)
        ensures
            r.0 == 0,
    {
        PhysicalMemoryAddress(0)
    }

    /// The page number of this address.
    pub fn to_ppn(&self) -> (r: PhysicalPageNumber)
        ensures
            r.0 == pa_ppn(self.0),
    {
        PhysicalPageNumber((self.0 & PA_PPN_MASK) >> 12u64)
    }

    /// The page number of this address (same as `to_ppn`).
    pub fn ppn(&self) -> (r: PhysicalPageNumber)
        ensures
            r.0 == pa_ppn(self.0),
    {
        self.to_ppn()
    }

    /// A page-table entry pointing at this address's page with `flag` set.
    pub fn to_pte(&self, flag: u64) -> (r: PageTableEntry)
        ensures
            r.bits == (pa_ppn(self.0) << 10u64) | flag,
    {
        self.to_ppn().to_pte(flag)
    }
}

impl PhysicalPageNumber {
    /// Page number zero.
    pub fn new() -> (r: Self)
        ensures
            r.0 == 0,
    {
        PhysicalPageNumber(0)
    }

    /// A page-table entry holding this page number in bits 10..53 and `flags` below.
    pub fn to_pte(&self, flags: u64) -> (r: PageTableEntry)
        ensures
            r.bits == (self.0 << 10u64) | flags,
    {
        PageTableEntry { bits: (self.0 << 10u64) | flags }
    }

    /// The base address of this page.
    pub fn to_pma(&self) -> (r: PhysicalMemoryAddress)
        ensures
            r.0 == self.0 << 12u64,
    {
        PhysicalMemoryAddress(self.0 << 12u64)
    }
}

impl VirtualMemoryAddress {
    /// The null virtual address.
    pub fn new() -> (r: Self)
        ensures
            r.0 == 0,
    {
        VirtualMemoryAddress(0)
    }

    /// Bits 0..11: the offset inside the page.
    pub fn offset(&self) -> (r: u64)
        ensures
            r == self.0 & PAGE_OFFSET_MASK,
            r < 4096,
    {
        proof {
            lemma_offset_bound(self.0);
        }
        self.0 & PAGE_OFFSET_MASK
    }

    /// Bits 12..38: the virtual page number.
    pub fn vpn(&self) -> (r: VirtualPageNumber)
        ensures
            r.0 == va_vpn(self.0),
    {
        VirtualPageNumber((self.0 & VA_VPN_MASK) >> 12u64)
    }

    /// The index this address selects in a table of `level` (2 is the root).
    pub fn get_pagetable_index(&self, level: usize) -> (r: usize)
        requires
            level < 3,
        ensures
            r == va_index(self.0, level as nat),
            r < 512,
    {
        let shift: u64 = 12 + 9 * level as u64;
        let idx: u64 = (self.0 >> shift) & VPN_PART_MASK;
        proof {
            lemma_index_bound(self.0 >> shift);
        }
        idx as usize
    }
}

impl VirtualPageNumber {
    /// Page number zero.
    pub fn new() -> (r: Self)
        ensures
            r.0 == 0,
    {
        VirtualPageNumber(0)
    }

    /// The 9-bit index this page number selects in a table of `level` (2 is the root).
    pub fn get_pagetable_index(&self, level: usize) -> (r: usize)
        requires
            level < 3,
        ensures
            r == vpn_index(self.0, level as nat),
            r < 512,
    {
        let shift: u64 = 9 * level as u64;
        let idx: u64 = (self.0 >> shift) & VPN_PART_MASK;
        proof {
            lemma_index_bound(self.0 >> shift);
        }
        idx as usize
    }

    /// The 9-bit index this page number selects in a table of level `idx`
    /// (same as `get_pagetable_index`).
    pub fn get_part(&self, idx: usize) -> (r: usize)
        requires
            idx < 3,
        ensures
            r == vpn_index(self.0, idx as nat),
            r < 512,
    {
        self.get_pagetable_index(idx)
    }
}

proof fn lemma_offset_bound(x: u64)
    ensures
        x & PAGE_OFFSET_MASK < 4096,
{
    assert(x & 0xfff < 4096) by (bit_vector);
}

proof fn lemma_index_bound(x: u64)
    ensures
        x & VPN_PART_MASK < 512,
{
    assert(x & 0x1ff < 512) by (bit_vector);
}

/// The index a virtual address selects at each level is the matching 9-bit
/// slice of its page number.
pub proof fn lemma_va_index_is_vpn_index(va: u64)
    ensures
        va_index(va, 0) == vpn_index(va_vpn(va), 0),
        va_index(va, 1) == vpn_index(va_vpn(va), 1),
        va_index(va, 2) == vpn_index(va_vpn(va), 2),
        va_vpn(va) < VPN_LIMIT,
{
    assert(((va >> 12u64) & 0x1ff) == ((((va & 0x7f_ffff_f000) >> 12u64) >> 0u64) & 0x1ff))
        by (bit_vector);
    assert(((va >> 21u64) & 0x1ff) == ((((va & 0x7f_ffff_f000) >> 12u64) >> 9u64) & 0x1ff))
        by (bit_vector);
    assert(((va >> 30u64) & 0x1ff) == ((((va & 0x7f_ffff_f000) >> 12u64) >> 18u64) & 0x1ff))
        by (bit_vector);
    assert(((va & 0x7f_ffff_f000) >> 12u64) < 0x800_0000) by (bit_vector);
}

/// Two page numbers of the Sv39 space that agree on all three table indices
/// are the same page number.
pub proof fn lemma_vpn_indices_determine_vpn(a: u64, b: u64)
    requires
        a < VPN_LIMIT,
        b < VPN_LIMIT,
        vpn_index(a, 0) == vpn_index(b, 0),
        vpn_index(a, 1) == vpn_index(b, 1),
        vpn_index(a, 2) == vpn_index(b, 2),
    ensures
        a == b,
{
    assert(a < 0x800_0000 && b < 0x800_0000 && ((a >> 0u64) & 0x1ff) == ((b >> 0u64) & 0x1ff)
        && ((a >> 9u64) & 0x1ff) == ((b >> 9u64) & 0x1ff) && ((a >> 18u64) & 0x1ff) == ((b
        >> 18u64) & 0x1ff) ==> a == b) by (bit_vector);
}

/// Below the top of the Sv39 space the page number of an address is the
/// address divided by the page size.
pub proof fn lemma_va_vpn_div(va: u64)
    requires
        va < VA_LIMIT,
    ensures
        va_vpn(va) == va / 4096,
{
    assert(va < 0x80_0000_0000 ==> ((va & 0x7f_ffff_f000) >> 12u64) == va / 4096)
        by (bit_vector);
}

/// Below the top of the physical space the page number of an address is the
/// address divided by the page size, and a page-aligned address is its page
/// number shifted back.
pub proof fn lemma_pa_ppn_div(pa: u64)
    requires
        pa < PA_LIMIT,
    ensures
        pa_ppn(pa) == pa / 4096,
        pa_ppn(pa) < 0x1000_0000_0000,
        pa % 4096 == 0 ==> pa_ppn(pa) << 12u64 == pa,
{
    assert(pa < 0x0100_0000_0000_0000 ==> ((pa & 0x00ff_ffff_ffff_f000) >> 12u64) == pa / 4096
        && ((pa & 0x00ff_ffff_ffff_f000) >> 12u64) < 0x1000_0000_0000 && (pa % 4096 == 0 ==> ((
        (pa & 0x00ff_ffff_ffff_f000) >> 12u64) << 12u64) == pa)) by (bit_vector);
}

/// A physical page number always fits the 44 bits an entry holds.
pub proof fn lemma_pa_ppn_bound(pa: u64)
    ensures
        pa_ppn(pa) < 0x1000_0000_0000,
{
    assert(((pa & 0x00ff_ffff_ffff_f000) >> 12u64) < 0x1000_0000_0000) by (bit_vector);
}

/// Address decomposition round trip: a Sv39 virtual address is its three
/// 9-bit table indices, each shifted into place, joined with its in-page
/// offset; without the offset they give the page-aligned address.
pub proof fn lemma_va_decomposition(va: u64)
    requires
        va < VA_LIMIT,
    ensures
        (va_index(va, 2) << 30u64) | (va_index(va, 1) << 21u64) | (va_index(va, 0) << 12u64) | (
        va & PAGE_OFFSET_MASK) == va,
        (va_index(va, 2) << 30u64) | (va_index(va, 1) << 21u64) | (va_index(va, 0) << 12u64)
            == va - va % 4096,
{
    assert(va < 0x80_0000_0000 ==> (((va >> 30u64) & 0x1ff) << 30u64) | (((va >> 21u64) & 0x1ff)
        << 21u64) | (((va >> 12u64) & 0x1ff) << 12u64) | (va & 0xfff) == va) by (bit_vector);
    assert(va < 0x80_0000_0000 ==> (((va >> 30u64) & 0x1ff) << 30u64) | (((va >> 21u64) & 0x1ff)
        << 21u64) | (((va >> 12u64) & 0x1ff) << 12u64) == va - va % 4096) by (bit_vector);
}

} // verus!
