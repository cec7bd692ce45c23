use std::sync::Arc;
use xxos::address::VirtualMemoryAddress;
use xxos::frame::FramePool;
use xxos::layout::{TRAMPOLINE, TRAPFRAME};
use xxos::pagetable::PageTableErr;
use xxos::process::{zero_task, INITCODE};
use xxos::error::ErrorTrace;
use xxos::process::{Context, Cpu, State, TaskManager, Tcb};
use xxos::trap::{TrapContext, TrapFrame};

fn task(pid: usize) -> Arc<Tcb> {
    let mut t = Tcb::default();
    t.pid = pid;
    Arc::new(t)
}

#[test]
fn task_manager_round_robin() {
    let mut m = TaskManager::init();
    m.push(task(1));
    m.push(task(2));
    assert_eq!(*m.pop().unwrap().pid(), 1);
    assert_eq!(*m.pop().unwrap().pid(), 2);
    assert_eq!(*m.pop().unwrap().pid(), 1);
    assert_eq!(m.tasks.len(), 2);
}

#[test]
fn new_task_is_ready() {
    let t = Tcb::default();
    assert_eq!(*t.state(), State::Ready);
    assert_eq!(*t.pid(), 0);
    assert_eq!(t.name().as_str(), "");
    assert_eq!(*t.kstack(), 0);
}

#[test]
fn contexts_start_zeroed() {
    let mut c = Context::new();
    assert_eq!(c.sp, 0);
    c.test(9);
    assert_eq!(c.s1, 9);
    let cpu = Cpu::new();
    assert!(cpu.proc.is_none());
    let mut k = TrapContext::new();
    k.set_sp(0x1000);
    assert_eq!(k.sp(), 0x1000);
    TrapContext::store_in_stack();
}

#[test]
fn trap_frame_registers() {
    let mut f = TrapFrame::default();
    f.set_sp(0x4000);
    f.set_sepc(0x8020_0000);
    f.set_a0(42);
    assert_eq!(f.sepc(), 0x8020_0000);
    assert_eq!(f.a0(), 42);
    assert_eq!(f.a1(), 0);
    assert_eq!(f.a2(), 0);
    assert_eq!(f.a7(), 0);
    assert_eq!(f.scause().bits(), 0);
    TrapFrame::store_in_stack();
}

#[test]
fn error_trace_keeps_place() {
    let e = ErrorTrace::from_other_error("oops", "pagetable.rs", 7);
    assert_eq!(e.message, "oops");
    assert_eq!(e.file, "pagetable.rs");
    assert_eq!(e.line, 7);
}

#[test]
fn first_task_address_space() {
    let mut pool = FramePool::new(0x9000_0000, 0x9000_9000);
    let mut t = zero_task(0x8020_2000, &mut pool).unwrap();
    assert_eq!(*t.pid(), 0);
    assert_eq!(t.name().as_str(), "initcode");
    assert_eq!(*t.state(), State::Ready);
    assert_eq!(*t.kstack(), 0x3f_ffff_9000);
    assert_eq!(t.context.sp, 0x3f_ffff_c000);
    assert_eq!(t.trapframe.epc, 0);
    assert_eq!(t.trapframe.sp, 0x1000);
    let trapframe = t.frames[0].address().0;
    let mut none = FramePool::new(0, 0);
    let tree = t.vm.as_mut().unwrap().pagetables_mut();
    let code = tree.walk(VirtualMemoryAddress(0), false, &mut none).unwrap().bits();
    assert_eq!(code & 0x3ff, 0x1f);
    let tf = tree.walk(VirtualMemoryAddress(TRAPFRAME), false, &mut none).unwrap().bits();
    assert_eq!(tf, ((trapframe >> 12) << 10) | 0xf);
    let tr = tree.walk(VirtualMemoryAddress(TRAMPOLINE), false, &mut none).unwrap().bits();
    assert_eq!(tr, (0x80202 << 10) | 0xb);
    assert_eq!(INITCODE.len(), 52);
}

#[test]
fn first_task_needs_frames() {
    let mut pool = FramePool::new(0x9000_0000, 0x9000_4000);
    assert!(matches!(zero_task(0x8020_2000, &mut pool), Err(PageTableErr::OutOfMemory)));
}

#[test]
fn task_manager_moves_front_to_back() {
    let mut m = TaskManager::init();
    m.push(task(7));
    m.push(task(8));
    m.push(task(9));
    assert_eq!(*m.pop().unwrap().pid(), 7);
    let order: Vec<usize> = m.tasks.iter().map(|t| *t.pid()).collect();
    assert_eq!(order, vec![8, 9, 7]);
}
