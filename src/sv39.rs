//! Sv39 page-table entries: eight flag bits and a 44-bit physical page number.

use vstd::prelude::*;

use crate::address::{PhysicalMemoryAddress, PhysicalPageNumber};

verus! {

/// Valid.
pub const PTE_FLAG_V: u64 = 1;

/// Readable.
pub const PTE_FLAG_R: u64 = 2;

/// Writable.
pub const PTE_FLAG_W: u64 = 4;

/// Executable.
pub const PTE_FLAG_X: u64 = 8;

/// Accessible from user mode.
pub const PTE_FLAG_U: u64 = 16;

/// Global mapping.
pub const PTE_FLAG_G: u64 = 32;

/// Accessed.
pub const PTE_FLAG_A: u64 = 64;

/// Dirty.
pub const PTE_FLAG_D: u64 = 128;

/// Bits 0..9 of an entry: the eight flags and two bits reserved for software.
pub const PTE_FLAGS_MASK: u64 = 0x3ff;

/// Position of the page number inside an entry.
pub const PTE_PPN_SHIFT: u64 = 10;

/// Bits 10..53 of an entry: the 44-bit physical page number.
pub const PTE_PPN_MASK: u64 = 0x003f_ffff_ffff_fc00;

/// An entry's valid bit.
pub open spec fn pte_valid(bits: u64) -> bool {
    bits & PTE_FLAG_V != 0
}

/// An entry's page number (bits 10..53).
pub open spec fn pte_ppn(bits: u64) -> u64 {
    (bits & PTE_PPN_MASK) >> 10u64
}

/// An entry's flag field (bits 0..9).
pub open spec fn pte_flags(bits: u64) -> u64 {
    bits & PTE_FLAGS_MASK
}

/// The physical address of the page an entry points at.
pub open spec fn pte_pa(bits: u64) -> u64 {
    pte_ppn(bits) << 12u64
}

/// The entry word that maps to page number `ppn` with `flags`.
pub open spec fn pte_word(ppn: u64, flags: u64) -> u64 {
    (ppn << 10u64) | flags
}

/// One flag of an entry, or one of the flag sets the kernel checks at once.
pub enum PTEFlags {
    V,
    R,
    W,
    X,
    U,
    G,
    A,
    D,
    RW,
    RWX,
}

impl PTEFlags {
    pub open spec fn spec_bits(self) -> u64 {
        match self {
            PTEFlags::V => PTE_FLAG_V,
            PTEFlags::R => PTE_FLAG_R,
            PTEFlags::W => PTE_FLAG_W,
            PTEFlags::X => PTE_FLAG_X,
            PTEFlags::U => PTE_FLAG_U,
            PTEFlags::G => PTE_FLAG_G,
            PTEFlags::A => PTE_FLAG_A,
            PTEFlags::D => PTE_FLAG_D,
            PTEFlags::RW => PTE_FLAG_R | PTE_FLAG_W,
            PTEFlags::RWX => PTE_FLAG_R | PTE_FLAG_W | PTE_FLAG_X,
        }
    }

    /// The flag bits this value stands for.
    pub fn bits(&self) -> (r: u64)
        ensures
            r == self.spec_bits(),
    {
        match self {
            PTEFlags::V => PTE_FLAG_V,
            PTEFlags::R => PTE_FLAG_R,
            PTEFlags::W => PTE_FLAG_W,
            PTEFlags::X => PTE_FLAG_X,
            PTEFlags::U => PTE_FLAG_U,
            PTEFlags::G => PTE_FLAG_G,
            PTEFlags::A => PTE_FLAG_A,
            PTEFlags::D => PTE_FLAG_D,
            PTEFlags::RW => PTE_FLAG_R | PTE_FLAG_W,
            PTEFlags::RWX => PTE_FLAG_R | PTE_FLAG_W | PTE_FLAG_X,
        }
    }
}

/// A single flag of an entry.
pub enum PteFlags {
    V,
    R,
    W,
    X,
    U,
    G,
    A,
    D,
}

impl PteFlags {
    pub open spec fn spec_bits(self) -> u64 {
        match self {
            PteFlags::V => PTE_FLAG_V,
            PteFlags::R => PTE_FLAG_R,
            PteFlags::W => PTE_FLAG_W,
            PteFlags::X => PTE_FLAG_X,
            PteFlags::U => PTE_FLAG_U,
            PteFlags::G => PTE_FLAG_G,
            PteFlags::A => PTE_FLAG_A,
            PteFlags::D => PTE_FLAG_D,
        }
    }

    /// The flag bit this value stands for.
    pub fn bits(&self) -> (r: u64)
        ensures
            r == self.spec_bits(),
    {
        match self {
            PteFlags::V => PTE_FLAG_V,
            PteFlags::R => PTE_FLAG_R,
            PteFlags::W => PTE_FLAG_W,
            PteFlags::X => PTE_FLAG_X,
            PteFlags::U => PTE_FLAG_U,
            PteFlags::G => PTE_FLAG_G,
            PteFlags::A => PTE_FLAG_A,
            PteFlags::D => PTE_FLAG_D,
        }
    }
}

/// One 64-bit translation entry in the hardware layout.
#[derive(Debug, Clone, Copy, Default, PartialEq, Eq, Structural)]
pub struct PageTableEntry {
    pub bits: u64,
}

impl PageTableEntry {
    /// The empty (invalid) entry.
    pub fn new() -> (r: Self)
        ensures
            r.bits == 0,
    {
        PageTableEntry { bits: 0 }
    }

    /// The raw entry word.
    pub fn bits(&self) -> (r: u64)
        ensures
            r == self.bits,
    {
        self.bits
    }

    /// The physical page number in bits 10..53.
    pub fn to_ppn(&self) -> (r: PhysicalPageNumber)
        ensures
            r.0 == pte_ppn(self.bits),
    {
        PhysicalPageNumber((self.bits & PTE_PPN_MASK) >> 10u64)
    }

    /// The physical page number in bits 10..53 (same as `to_ppn`).
    pub fn ppn(&self) -> (r: PhysicalPageNumber)
        ensures
            r.0 == pte_ppn(self.bits),
    {
        self.to_ppn()
    }

    /// The base address of the page this entry points at.
    pub fn to_pma(&self) -> (r: PhysicalMemoryAddress)
        ensures
            r.0 == pte_pa(self.bits),
    {
        self.to_ppn().to_pma()
    }

    /// Overwrites this entry with `pte`.
    pub fn set(&mut self, pte: PageTableEntry)
        ensures
            *final(self) == pte,
    {
        self.bits = pte.bits;
    }

    /// Clears this entry to zero, making it invalid.
    pub fn clear(&mut self)
        ensures
            final(self).bits == 0,
    {
        self.bits = 0;
    }

    /// Whether any of the bits of `flags` is set.
    pub fn check_flags(&self, flags: PTEFlags) -> (r: bool)
        ensures
            r == (self.bits & flags.spec_bits() != 0),
    {
        self.bits & flags.bits() != 0
    }

    /// Valid.
    pub fn is_v(&self) -> (r: bool)
        ensures
            r == pte_valid(self.bits),
    {
        self.bits & PTE_FLAG_V != 0
    }

    /// Readable.
    pub fn is_r(&self) -> (r: bool)
        ensures
            r == (self.bits & PTE_FLAG_R != 0),
    {
        self.bits & PTE_FLAG_R != 0
    }

    /// Writable.
    pub fn is_w(&self) -> (r: bool)
        ensures
            r == (self.bits & PTE_FLAG_W != 0),
    {
        self.bits & PTE_FLAG_W != 0
    }

    /// Executable.
    pub fn is_x(&self) -> (r: bool)
        ensures
            r == (self.bits & PTE_FLAG_X != 0),
    {
        self.bits & PTE_FLAG_X != 0
    }

    /// User-accessible.
    pub fn is_u(&self) -> (r: bool)
        ensures
            r == (self.bits & PTE_FLAG_U != 0),
    {
        self.bits & PTE_FLAG_U != 0
    }

    /// Global.
    pub fn is_g(&self) -> (r: bool)
        ensures
            r == (self.bits & PTE_FLAG_G != 0),
    {
        self.bits & PTE_FLAG_G != 0
    }

    /// Accessed.
    pub fn is_a(&self) -> (r: bool)
        ensures
            r == (self.bits & PTE_FLAG_A != 0),
    {
        self.bits & PTE_FLAG_A != 0
    }

    /// Dirty.
    pub fn is_d(&self) -> (r: bool)
        ensures
            r == (self.bits & PTE_FLAG_D != 0),
    {
        self.bits & PTE_FLAG_D != 0
    }
}

/// An entry built from a page number below 2^44 and a flag field below 2^10
/// gives both back unchanged; it is valid exactly when the flags hold `V`.
pub proof fn lemma_pte_word_fields(ppn: u64, flags: u64)
    requires
        ppn < 0x1000_0000_0000,
        flags < 0x400,
    ensures
        pte_ppn(pte_word(ppn, flags)) == ppn,
        pte_flags(pte_word(ppn, flags)) == flags,
        pte_valid(pte_word(ppn, flags)) == (flags & PTE_FLAG_V != 0),
{
    assert(ppn < 0x1000_0000_0000 && flags < 0x400 ==> (((((ppn << 10u64) | flags)
        & 0x003f_ffff_ffff_fc00) >> 10u64) == ppn && (((ppn << 10u64) | flags) & 0x3ff) == flags
        && ((((ppn << 10u64) | flags) & 1) != 0) == ((flags & 1) != 0))) by (bit_vector);
}

/// Bits `R`, `W` and `X` of an entry; all clear in an entry that points at
/// a table one level down, at least one set in a leaf.
pub const PTE_RWX_MASK: u64 = 0xe;

/// An entry built with `V` alone points at a table: `R`, `W` and `X` are clear.
pub proof fn lemma_pointer_word(ppn: u64)
    ensures
        pte_word(ppn, PTE_FLAG_V) & PTE_RWX_MASK == 0,
{
    assert(((ppn << 10u64) | 1u64) & 0xeu64 == 0) by (bit_vector);
}

/// The zero word is an invalid entry.
pub proof fn lemma_zero_invalid()
    ensures
        !pte_valid(0),
{
    assert(0u64 & 1 == 0) by (bit_vector);
}

} // verus!
