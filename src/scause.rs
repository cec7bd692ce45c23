//! The supervisor trap cause register (SCAUSE): the top bit tells an
//! interrupt from an exception, the other bits hold the cause code.

use vstd::prelude::*;

verus! {

/// Bit 63: set for an interrupt.
pub const SCAUSE_INTERRUPT_BIT: u64 = 0x8000_0000_0000_0000;

/// Interrupt causes.
#[derive(Clone, Copy, Debug, PartialEq, Eq, Structural)]
pub enum Interrupt {
    UserSoft,
    SupervisorSoft,
    UserTimer,
    SupervisorTimer,
    UserExternal,
    SupervisorExternal,
    Unknown,
}

/// The interrupt that cause code `code` stands for.
pub open spec fn interrupt_of(code: u64) -> Interrupt {
    if code == 0 {
        Interrupt::UserSoft
    } else if code == 1 {
        Interrupt::SupervisorSoft
    } else if code == 4 {
        Interrupt::UserTimer
    } else if code == 5 {
        Interrupt::SupervisorTimer
    } else if code == 8 {
        Interrupt::UserExternal
    } else if code == 9 {
        Interrupt::SupervisorExternal
    } else {
        Interrupt::Unknown
    }
}

impl Interrupt {
    /// The interrupt that cause code `interrupt_id` stands for.
    pub fn from(interrupt_id: u64) -> (r: Self)
        ensures
            r == interrupt_of(interrupt_id),
    {
        match interrupt_id {
            0 => Interrupt::UserSoft,
            1 => Interrupt::SupervisorSoft,
            4 => Interrupt::UserTimer,
            5 => Interrupt::SupervisorTimer,
            8 => Interrupt::UserExternal,
            9 => Interrupt::SupervisorExternal,
            _ => Interrupt::Unknown,
        }
    }
}

/// Exception causes.
#[derive(Clone, Copy, Debug, PartialEq, Eq, Structural)]
pub enum Exception {
    InstructionMisaligned,
    InstructionFault,
    IllegalInstruction,
    Breakpoint,
    LoadFault,
    StoreMisaligned,
    StoreFault,
    UserEnvCall,
    InstructionPageFault,
    LoadPageFault,
    StorePageFault,
    Unknown,
}

/// The exception that cause code `nr` stands for.
pub open spec fn exception_of(nr: u64) -> Exception {
    if nr == 0 {
        Exception::InstructionMisaligned
    } else if nr == 1 {
        Exception::InstructionFault
    } else if nr == 2 {
        Exception::IllegalInstruction
    } else if nr == 3 {
        Exception::Breakpoint
    } else if nr == 5 {
        Exception::LoadFault
    } else if nr == 6 {
        Exception::StoreMisaligned
    } else if nr == 7 {
        Exception::StoreFault
    } else if nr == 8 {
        Exception::UserEnvCall
    } else if nr == 12 {
        Exception::InstructionPageFault
    } else if nr == 13 {
        Exception::LoadPageFault
    } else if nr == 15 {
        Exception::StorePageFault
    } else {
        Exception::Unknown
    }
}

impl Exception {
    /// The exception that cause code `nr` stands for.
    pub fn from(nr: u64) -> (r: Self)
        ensures
            r == exception_of(nr),
    {
        match nr {
            0 => Exception::InstructionMisaligned,
            1 => Exception::InstructionFault,
            2 => Exception::IllegalInstruction,
            3 => Exception::Breakpoint,
            5 => Exception::LoadFault,
            6 => Exception::StoreMisaligned,
            7 => Exception::StoreFault,
            8 => Exception::UserEnvCall,
            12 => Exception::InstructionPageFault,
            13 => Exception::LoadPageFault,
            15 => Exception::StorePageFault,
            _ => Exception::Unknown,
        }
    }
}

/// A trap cause.
#[derive(Clone, Copy, Debug, PartialEq, Eq, Structural)]
pub enum Trap {
    Interrupt(Interrupt),
    Exception(Exception),
}

/// A SCAUSE value.
#[derive(Debug, Default, Clone)]
pub struct Scause {
    pub bits: u64,
}

impl Scause {
    /// The zero value.
    pub fn new() -> (r: Self)
        ensures
            r.bits == 0,
    {
        Scause { bits: 0 }
    }

    /// The whole value.
    pub fn bits(&self) -> (r: u64)
        ensures
            r == self.bits,
    {
        self.bits
    }

    /// The cause code: every bit but the interrupt bit.
    pub fn code(&self) -> (r: u64)
        ensures
            r == self.bits & !SCAUSE_INTERRUPT_BIT,
    {
        self.bits & !SCAUSE_INTERRUPT_BIT
    }

    /// The trap cause the value describes.
    pub fn cause(&self) -> (r: Trap)
        ensures
            r == (if self.bits & SCAUSE_INTERRUPT_BIT != 0 {
                Trap::Interrupt(interrupt_of(self.bits & !SCAUSE_INTERRUPT_BIT))
            } else {
                Trap::Exception(exception_of(self.bits & !SCAUSE_INTERRUPT_BIT))
            }),
    {
        if self.is_interrupt() {
            Trap::Interrupt(Interrupt::from(self.code()))
        } else {
            Trap::Exception(Exception::from(self.code()))
        }
    }

    /// The cause is an interrupt.
    pub fn is_interrupt(&self) -> (r: bool)
        ensures
            r == (self.bits & SCAUSE_INTERRUPT_BIT != 0),
    {
        self.bits & SCAUSE_INTERRUPT_BIT != 0
    }

    /// The cause is an exception.
    pub fn is_exception(&self) -> (r: bool)
        ensures
            r == (self.bits & SCAUSE_INTERRUPT_BIT == 0),
    {
        !self.is_interrupt()
    }
}

} // verus!
