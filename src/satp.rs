//! The supervisor address translation and protection register (SATP):
//! page number of the root table in bits 0..43, address-space id in bits
//! 44..59, translation mode in bits 60..63.

use vstd::prelude::*;

verus! {

/// Bits 0..43: physical page number of the root table.
pub const SATP_PPN_MASK: u64 = 0x0000_0fff_ffff_ffff;

/// Position of the address-space id.
pub const SATP_ASID_SHIFT: u64 = 44;

/// Bits 44..59: address-space id.
pub const SATP_ASID_MASK: u64 = 0x0fff_f000_0000_0000;

/// Position of the translation mode.
pub const SATP_MODE_SHIFT: u64 = 60;

/// Bits 60..63: translation mode.
pub const SATP_MODE_MASK: u64 = 0xf000_0000_0000_0000;

/// Translation modes.
#[derive(Debug, Clone, Copy, PartialEq, Eq, Structural)]
pub enum Mode {
    /// No translation or protection.
    Bare,
    /// Page-based 39-bit virtual addressing.
    Sv39,
    /// Page-based 48-bit virtual addressing.
    Sv48,
}

impl Mode {
    pub open spec fn spec_bits(self) -> u64 {
        match self {
            Mode::Bare => 0,
            Mode::Sv39 => 8,
            Mode::Sv48 => 9,
        }
    }

    /// The value of the mode field that selects this mode.
    pub fn bits(&self) -> (r: u64)
        ensures
            r == self.spec_bits(),
    {
        match self {
            Mode::Bare => 0,
            Mode::Sv39 => 8,
            Mode::Sv48 => 9,
        }
    }
}

/// The value of the mode field of SATP word `bits`.
pub open spec fn satp_mode_field(bits: u64) -> u64 {
    (bits & SATP_MODE_MASK) >> 60u64
}

/// A SATP value.
#[derive(Debug, Default)]
pub struct Satp {
    pub bits: u64,
}

impl Satp {
    /// The zero value: no translation.
    pub fn new() -> (r: Self)
        ensures
            r.bits == 0,
    {
        Satp { bits: 0 }
    }

    /// Replaces the whole value.
    pub fn set(&mut self, bits: u64)
        ensures
            final(self).bits == bits,
    {
        self.bits = bits;
    }

    /// The whole value.
    pub fn bits(&self) -> (r: u64)
        ensures
            r == self.bits,
    {
        self.bits
    }

    /// The current translation mode; the mode field must hold one of the
    /// defined modes.
    pub fn mode(&self) -> (r: Mode)
        requires
            satp_mode_field(self.bits) == 0 || satp_mode_field(self.bits) == 8 || satp_mode_field(
                self.bits,
            ) == 9,
        ensures
            r.spec_bits() == satp_mode_field(self.bits),
    {
        let field = (self.bits & SATP_MODE_MASK) >> SATP_MODE_SHIFT;
        if field == 0 {
            Mode::Bare
        } else if field == 8 {
            Mode::Sv39
        } else {
            Mode::Sv48
        }
    }

    /// Sets the bits of `mode` in the mode field.
    pub fn set_mode(&mut self, mode: Mode)
        ensures
            final(self).bits == old(self).bits | (mode.spec_bits() << 60u64),
    {
        self.bits = self.bits | (mode.bits() << SATP_MODE_SHIFT);
    }

    /// The address-space id (bits 44..59).
    pub fn asid(&self) -> (r: u64)
        ensures
            r == (self.bits & SATP_ASID_MASK) >> 44u64,
    {
        (self.bits & SATP_ASID_MASK) >> SATP_ASID_SHIFT
    }

    /// Sets the bits of `asid` from bit 44 on.
    pub fn set_asid(&mut self, asid: u64)
        ensures
            final(self).bits == old(self).bits | (asid << 44u64),
    {
        self.bits = self.bits | (asid << SATP_ASID_SHIFT);
    }

    /// The page number of the root table (bits 0..43).
    pub fn ppn(&self) -> (r: u64)
        ensures
            r == self.bits & SATP_PPN_MASK,
    {
        self.bits & SATP_PPN_MASK
    }

    /// Sets the bits of `ppn` in the low bits.
    pub fn set_ppn(&mut self, ppn: u64)
        ensures
            final(self).bits == old(self).bits | ppn,
    {
        self.bits = self.bits | ppn;
    }

    /// The value that installs the table whose root has page number `ppn`
    /// in Sv39 mode: starting from zero, the mode field is set to Sv39 and the
    /// page number put below it.
    pub fn for_root(ppn: u64) -> (r: Self)
        requires
            ppn < 0x1000_0000_0000,
        ensures
            r.bits == (8u64 << 60u64) | ppn,
            satp_mode_field(r.bits) == 8,
            r.bits & SATP_PPN_MASK == ppn,
            (r.bits & SATP_ASID_MASK) >> 44u64 == 0,
    {
        let mut satp = Satp::new();
        satp.set_mode(Mode::Sv39);
        satp.set_ppn(ppn);
        proof {
            assert(ppn < 0x1000_0000_0000 ==> ((((0u64 | (8u64 << 60u64)) | ppn)
                & 0xf000_0000_0000_0000) >> 60u64) == 8 && (((0u64 | (8u64 << 60u64)) | ppn)
                & 0x0000_0fff_ffff_ffff) == ppn && ((((0u64 | (8u64 << 60u64)) | ppn)
                & 0x0fff_f000_0000_0000) >> 44u64) == 0 && ((0u64 | (8u64 << 60u64)) | ppn) == ((
            8u64 << 60u64) | ppn)) by (bit_vector);
        }
        satp
    }
}

} // verus!
