//! The supervisor trap vector register (STVEC): the trap handler address
//! with the vectoring mode in its two low bits.

use vstd::prelude::*;

verus! {

/// Bits 0..1: the mode.
pub const STVEC_MODE_MASK: u64 = 0x3;

/// How traps reach the handler.
#[derive(Clone, Copy, Debug, PartialEq, Eq, Structural)]
pub enum TrapMode {
    /// Every trap jumps to the base address.
    Direct,
    /// Interrupts jump to the base plus four times their cause.
    Vectored,
}

impl TrapMode {
    pub open spec fn spec_bits(self) -> u64 {
        match self {
            TrapMode::Direct => 0,
            TrapMode::Vectored => 1,
        }
    }

    /// The value of the mode field that selects this mode.
    pub fn bits(&self) -> (r: u64)
        ensures
            r == self.spec_bits(),
    {
        match self {
            TrapMode::Direct => 0,
            TrapMode::Vectored => 1,
        }
    }
}

/// An STVEC value.
pub struct Stvec {
    bits: u64,
}

impl Stvec {
    /// The value `bits`, as read from the register.
    pub fn from_bits(bits: u64) -> (r: Self)
        ensures
            r.spec_bits() == bits,
    {
        Stvec { bits }
    }

    pub closed spec fn spec_bits(&self) -> u64 {
        self.bits
    }

    /// The whole value.
    pub fn bits(&self) -> (r: u64)
        ensures
            r == self.spec_bits(),
    {
        self.bits
    }

    /// The value that sends traps to `addr` in `mode`: the address plus the
    /// mode number.
    pub fn value(addr: u64, mode: TrapMode) -> (r: u64)
        requires
            addr + mode.spec_bits() <= u64::MAX,
        ensures
            r == addr + mode.spec_bits(),
    {
        addr + mode.bits()
    }

    /// The vectoring mode; the mode field must hold a defined mode.
    pub fn mode(&self) -> (r: TrapMode)
        requires
            self.spec_bits() & STVEC_MODE_MASK <= 1,
        ensures
            r.spec_bits() == self.spec_bits() & STVEC_MODE_MASK,
    {
        if self.bits & STVEC_MODE_MASK == 0 {
            TrapMode::Direct
        } else {
            TrapMode::Vectored
        }
    }

    /// Replaces the mode field with `mode`, keeping the base address.
    pub fn set_mode(&mut self, mode: TrapMode)
        ensures
            final(self).spec_bits() == (old(self).spec_bits() & !STVEC_MODE_MASK) + mode.spec_bits(),
    {
        proof {
            let b = self.bits;
            assert((b & !3u64) + 1 <= u64::MAX) by (bit_vector);
        }
        self.bits = (self.bits & !STVEC_MODE_MASK) + mode.bits();
    }
}

} // verus!
