//! The supervisor exception program counter (SEPC) and trap value (STVAL)
//! registers.

use vstd::prelude::*;

verus! {

/// A SEPC value: the address of the instruction that trapped, or the one
/// to return to.
#[derive(Debug, Default, Clone)]
pub struct Sepc {
    bits: u64,
}

impl Sepc {
    /// The zero value.
    pub fn new() -> (r: Self)
        ensures
            r.spec_bits() == 0,
    {
        Sepc { bits: 0 }
    }

    pub closed spec fn spec_bits(&self) -> u64 {
        self.bits
    }

    /// The whole value.
    pub fn bits(&self) -> (r: u64)
        ensures
            r == self.spec_bits(),
    {
        self.bits
    }

    /// Replaces the value with `addr`.
    pub fn set_bits(&mut self, addr: u64)
        ensures
            final(self).spec_bits() == addr,
    {
        self.bits = addr;
    }
}

/// A STVAL value: the faulting address or instruction of the last trap.
#[derive(Debug)]
pub struct Stval {
    bits: u64,
}

impl Stval {
    /// The value `bits`, as read from the register.
    pub fn from_bits(bits: u64) -> (r: Self)
        ensures
            r.spec_bits() == bits,
    {
        Stval { bits }
    }

    pub closed spec fn spec_bits(&self) -> u64 {
        self.bits
    }

    /// The whole value.
    pub fn bits(&self) -> (r: u64)
        ensures
            r == self.spec_bits(),
    {
        self.bits
    }
}

} // verus!
