//! Register save areas of the trap layer.

use vstd::prelude::*;

use crate::scause::Scause;
use crate::sepc::Sepc;

verus! {

/// Trap-layer failures.
pub enum TrapError {
    NoDevice,
}

/// The general registers a kernel trap saves.
#[derive(Debug, Default, Clone)]
pub struct TrapContext {
    ra: u64,
    sp: u64,
    gp: u64,
    tp: u64,
    t0: u64,
    t1: u64,
    t2: u64,
    s0: u64,
    s1: u64,
    a0: u64,
    a1: u64,
    a2: u64,
    a3: u64,
    a4: u64,
    a5: u64,
    a6: u64,
    a7: u64,
    s2: u64,
    s3: u64,
    s4: u64,
    s5: u64,
    s6: u64,
    s7: u64,
    s8: u64,
    s9: u64,
    s10: u64,
    s11: u64,
    t3: u64,
    t4: u64,
    t5: u64,
    t6: u64,
}

impl TrapContext {
    pub closed spec fn spec_sp(&self) -> u64 {
        self.sp
    }

    /// All registers zero.
    pub closed spec fn is_zero(&self) -> bool {
        self.ra == 0 && self.sp == 0 && self.gp == 0 && self.tp == 0 && self.t0 == 0 && self.t1
            == 0 && self.t2 == 0 && self.s0 == 0 && self.s1 == 0 && self.a0 == 0 && self.a1 == 0
            && self.a2 == 0 && self.a3 == 0 && self.a4 == 0 && self.a5 == 0 && self.a6 == 0
            && self.a7 == 0 && self.s2 == 0 && self.s3 == 0 && self.s4 == 0 && self.s5 == 0
            && self.s6 == 0 && self.s7 == 0 && self.s8 == 0 && self.s9 == 0 && self.s10 == 0
            && self.s11 == 0 && self.t3 == 0 && self.t4 == 0 && self.t5 == 0 && self.t6 == 0
    }

    /// A context with every register zero.
    pub fn new() -> (r: Self)
        ensures
            r.is_zero(),
    {
        TrapContext {
            ra: 0,
            sp: 0,
            gp: 0,
            tp: 0,
            t0: 0,
            t1: 0,
            t2: 0,
            s0: 0,
            s1: 0,
            a0: 0,
            a1: 0,
            a2: 0,
            a3: 0,
            a4: 0,
            a5: 0,
            a6: 0,
            a7: 0,
            s2: 0,
            s3: 0,
            s4: 0,
            s5: 0,
            s6: 0,
            s7: 0,
            s8: 0,
            s9: 0,
            s10: 0,
            s11: 0,
            t3: 0,
            t4: 0,
            t5: 0,
            t6: 0,
        }
    }

    /// Saving happens in the trap entry code; nothing is left to do here.
    pub fn store_in_stack() {
    }

    /// Sets the stack pointer.
    pub fn set_sp(&mut self, sp: u64)
        ensures
            final(self).spec_sp() == sp,
    {
        self.sp = sp;
    }

    /// The stack pointer.
    pub fn sp(&self) -> (r: u64)
        ensures
            r == self.spec_sp(),
    {
        self.sp
    }
}

/// The registers a user trap saves, with the trapping pc and cause.
#[derive(Debug, Default, Clone)]
pub struct TrapFrame {
    ra: u64,
    sp: u64,
    gp: u64,
    tp: u64,
    t0: u64,
    t1: u64,
    t2: u64,
    s0: u64,
    s1: u64,
    a0: u64,
    a1: u64,
    a2: u64,
    a3: u64,
    a4: u64,
    a5: u64,
    a6: u64,
    a7: u64,
    s2: u64,
    s3: u64,
    s4: u64,
    s5: u64,
    s6: u64,
    s7: u64,
    s8: u64,
    s9: u64,
    s10: u64,
    s11: u64,
    t3: u64,
    t4: u64,
    t5: u64,
    t6: u64,
    sepc: Sepc,
    scause: Scause,
}

impl TrapFrame {
    pub closed spec fn spec_sp(&self) -> u64 {
        self.sp
    }

    pub closed spec fn spec_sepc(&self) -> u64 {
        self.sepc.spec_bits()
    }

    pub closed spec fn spec_scause(&self) -> u64 {
        self.scause.bits
    }

    /// The argument registers `a0`, `a1`, `a2` and the call number `a7`.
    pub closed spec fn spec_args(&self) -> (u64, u64, u64, u64) {
        (self.a0, self.a1, self.a2, self.a7)
    }

    /// Saving happens in the trap entry code; nothing is left to do here.
    pub fn store_in_stack() {
    }

    /// Sets the stack pointer.
    pub fn set_sp(&mut self, sp: u64)
        ensures
            final(self).spec_sp() == sp,
            final(self).spec_args() == old(self).spec_args(),
            final(self).spec_sepc() == old(self).spec_sepc(),
    {
        self.sp = sp;
    }

    /// The pc the trap came from.
    pub fn sepc(&self) -> (r: u64)
        ensures
            r == self.spec_sepc(),
    {
        self.sepc.bits()
    }

    /// Sets the pc to return to.
    pub fn set_sepc(&mut self, pc: u64)
        ensures
            final(self).spec_sepc() == pc,
            final(self).spec_sp() == old(self).spec_sp(),
            final(self).spec_args() == old(self).spec_args(),
    {
        self.sepc.set_bits(pc);
    }

    /// The trap cause.
    pub fn scause(&self) -> (r: &Scause)
        ensures
            r.bits == self.spec_scause(),
    {
        &self.scause
    }

    /// First argument / return value register.
    pub fn a0(&self) -> (r: u64)
        ensures
            r == self.spec_args().0,
    {
        self.a0
    }

    /// Second argument register.
    pub fn a1(&self) -> (r: u64)
        ensures
            r == self.spec_args().1,
    {
        self.a1
    }

    /// Third argument register.
    pub fn a2(&self) -> (r: u64)
        ensures
            r == self.spec_args().2,
    {
        self.a2
    }

    /// System-call number register.
    pub fn a7(&self) -> (r: u64)
        ensures
            r == self.spec_args().3,
    {
        self.a7
    }

    /// Sets the return value register.
    pub fn set_a0(&mut self, a0: u64)
        ensures
            final(self).spec_args() == (a0, old(self).spec_args().1, old(self).spec_args().2, old(
                self,
            ).spec_args().3),
            final(self).spec_sp() == old(self).spec_sp(),
            final(self).spec_sepc() == old(self).spec_sepc(),
    {
        self.a0 = a0;
    }
}

} // verus!
