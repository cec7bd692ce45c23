use xxos::satp::{Mode, Satp};
use xxos::scause::{Exception, Interrupt, Scause, Trap};
use xxos::sepc::{Sepc, Stval};
use xxos::sstatus::{Sstatus, SPP};
use xxos::stvec::{Stvec, TrapMode};

#[test]
fn satp_fields() {
    let mut s = Satp::new();
    s.set_mode(Mode::Sv39);
    s.set_asid(0x12);
    s.set_ppn(0x80001);
    assert_eq!(s.bits(), 0x8001_2000_0008_0001);
    assert_eq!(s.mode(), Mode::Sv39);
    assert_eq!(s.asid(), 0x12);
    assert_eq!(s.ppn(), 0x80001);
    s.set(0);
    assert_eq!(s.mode(), Mode::Bare);
    s.set(0x9000_0000_0000_0000);
    assert_eq!(s.mode(), Mode::Sv48);
    assert_eq!(Mode::Sv48.bits(), 9);
}

#[test]
fn satp_for_root() {
    let s = Satp::for_root(0x80001);
    assert_eq!(s.bits(), 0x8000_0000_0008_0001);
    assert_eq!(s.mode(), Mode::Sv39);
    assert_eq!(s.ppn(), 0x80001);
    assert_eq!(s.asid(), 0);
}

#[test]
fn scause_causes() {
    let timer = Scause { bits: (1 << 63) | 5 };
    assert!(timer.is_interrupt());
    assert!(!timer.is_exception());
    assert_eq!(timer.code(), 5);
    assert_eq!(timer.cause(), Trap::Interrupt(Interrupt::SupervisorTimer));
    let ecall = Scause { bits: 8 };
    assert!(ecall.is_exception());
    assert_eq!(ecall.cause(), Trap::Exception(Exception::UserEnvCall));
    assert_eq!(Scause { bits: 15 }.cause(), Trap::Exception(Exception::StorePageFault));
    assert_eq!(Scause { bits: 4 }.cause(), Trap::Exception(Exception::Unknown));
    assert_eq!(Scause { bits: (1 << 63) | 2 }.cause(), Trap::Interrupt(Interrupt::Unknown));
    assert_eq!(Interrupt::from(9), Interrupt::SupervisorExternal);
    assert_eq!(Exception::from(3), Exception::Breakpoint);
    assert_eq!(Scause::new().bits(), 0);
}

#[test]
fn sepc_and_stval() {
    let mut e = Sepc::new();
    assert_eq!(e.bits(), 0);
    e.set_bits(0x8020_0000);
    assert_eq!(e.bits(), 0x8020_0000);
    assert_eq!(Stval::from_bits(0xdead).bits(), 0xdead);
}

#[test]
fn sstatus_fields() {
    let mut s = Sstatus::new();
    assert!(!s.sie());
    assert_eq!(s.spp(), SPP::User);
    s.set_sie();
    assert!(s.sie());
    assert_eq!(s.bits(), 0x2);
    s.set(0x100 | 0x4_0000 | 0x8_0000);
    assert_eq!(s.spp(), SPP::Supervisor);
    assert!(s.sum());
    assert!(s.mxr());
    assert!(!s.sie());
}

#[test]
fn stvec_mode() {
    let mut v = Stvec::from_bits(0x8020_0001);
    assert_eq!(v.mode(), TrapMode::Vectored);
    v.set_mode(TrapMode::Direct);
    assert_eq!(v.bits(), 0x8020_0000);
    assert_eq!(v.mode(), TrapMode::Direct);
    assert_eq!(Stvec::value(0x8020_0000, TrapMode::Vectored), 0x8020_0001);
}
