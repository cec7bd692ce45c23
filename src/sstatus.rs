//! The supervisor status register (SSTATUS).

use vstd::prelude::*;

verus! {

/// Supervisor interrupt enable.
pub const SSTATUS_SIE: u64 = 0x2;

/// Supervisor previous interrupt enable.
pub const SSTATUS_SPIE: u64 = 0x20;

/// Supervisor previous privilege.
pub const SSTATUS_SPP: u64 = 0x100;

/// Permit supervisor access to user memory.
pub const SSTATUS_SUM: u64 = 0x4_0000;

/// Make executable pages readable.
pub const SSTATUS_MXR: u64 = 0x8_0000;

/// Privilege mode a trap came from.
#[derive(Clone, Copy, Debug, PartialEq, Eq, Structural)]
pub enum SPP {
    Supervisor,
    User,
}

/// An SSTATUS value.
#[derive(Debug, Default, Clone)]
pub struct Sstatus {
    pub bits: u64,
}

impl Sstatus {
    /// The zero value.
    pub fn new() -> (r: Self)
        ensures
            r.bits == 0,
    {
        Sstatus { bits: 0 }
    }

    /// The whole value.
    pub fn bits(&self) -> (r: u64)
        ensures
            r == self.bits,
    {
        self.bits
    }

    /// Replaces the whole value.
    pub fn set(&mut self, bits: u64)
        ensures
            final(self).bits == bits,
    {
        self.bits = bits;
    }

    /// Supervisor interrupts are enabled.
    pub fn sie(&self) -> (r: bool)
        ensures
            r == (self.bits & SSTATUS_SIE != 0),
    {
        self.bits & SSTATUS_SIE != 0
    }

    /// Enables supervisor interrupts in this value.
    pub fn set_sie(&mut self)
        ensures
            final(self).bits == old(self).bits | SSTATUS_SIE,
    {
        self.bits = self.bits | SSTATUS_SIE;
    }

    /// The privilege mode the last trap came from.
    pub fn spp(&self) -> (r: SPP)
        ensures
            r == (if self.bits & SSTATUS_SPP != 0 {
                SPP::Supervisor
            } else {
                SPP::User
            }),
    {
        if self.bits & SSTATUS_SPP != 0 {
            SPP::Supervisor
        } else {
            SPP::User
        }
    }

    /// Supervisor code may access user pages.
    pub fn sum(&self) -> (r: bool)
        ensures
            r == (self.bits & SSTATUS_SUM != 0),
    {
        self.bits & SSTATUS_SUM != 0
    }

    /// Executable pages are readable.
    pub fn mxr(&self) -> (r: bool)
        ensures
            r == (self.bits & SSTATUS_MXR != 0),
    {
        self.bits & SSTATUS_MXR != 0
    }
}

} // verus!
