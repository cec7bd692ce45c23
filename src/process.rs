//! Task records: saved kernel context, trap frame, and the round-robin
//! queue of runnable tasks.

use vstd::prelude::*;

use std::collections::VecDeque;
use std::string::String;
use std::sync::Arc;

use crate::address::{pa_ppn, PA_LIMIT};
use crate::frame::{FramePool, PageFrame};
use crate::layout::{kstack, spec_kstack, KERNEL_STACK_SIZE, PGSZ, TRAMPOLINE, TRAPFRAME};
use crate::pagetable::{range_end, range_pages, range_start, PageTableErr};
use crate::sv39::{pte_word, PTE_FLAG_R, PTE_FLAG_U, PTE_FLAG_V, PTE_FLAG_W, PTE_FLAG_X};
use crate::vm::{image_page_mapped, image_pages_at, maps_to, Uvm, TRAMPOLINE_FLAGS, TRAPFRAME_FLAGS};

verus! {

/// The page a user task's registers are saved to on a trap, with what the
/// trap entry needs to get back into the kernel.
#[derive(Clone, Copy, Default, Debug)]
pub struct TrapFrame {
    /// Kernel page table.
    pub kernel_satp: u64,
    /// Top of the task's kernel stack.
    pub kernel_sp: u64,
    /// Address of the user trap handler.
    pub kernel_trap: u64,
    /// Saved user program counter.
    pub epc: u64,
    /// Saved kernel hart id.
    pub kernel_hartid: u64,
    pub ra: u64,
    pub sp: u64,
    pub gp: u64,
    pub tp: u64,
    pub t0: u64,
    pub t1: u64,
    pub t2: u64,
    pub s0: u64,
    pub s1: u64,
    pub a0: u64,
    pub a1: u64,
    pub a2: u64,
    pub a3: u64,
    pub a4: u64,
    pub a5: u64,
    pub a6: u64,
    pub a7: u64,
    pub s2: u64,
    pub s3: u64,
    pub s4: u64,
    pub s5: u64,
    pub s6: u64,
    pub s7: u64,
    pub s8: u64,
    pub s9: u64,
    pub s10: u64,
    pub s11: u64,
    pub t3: u64,
    pub t4: u64,
    pub t5: u64,
    pub t6: u64,
}

impl TrapFrame {
    /// The frame of a task that enters user mode at `epc` with stack
    /// pointer `sp`, every other register zero.
    pub fn user_entry(epc: u64, sp: u64) -> (r: Self)
        ensures
            r.epc == epc,
            r.sp == sp,
            r.a0 == 0,
            r.kernel_satp == 0,
    {
        TrapFrame {
            kernel_satp: 0,
            kernel_sp: 0,
            kernel_trap: 0,
            epc,
            kernel_hartid: 0,
            ra: 0,
            sp,
            gp: 0,
            tp: 0,
            t0: 0,
            t1: 0,
            t2: 0,
            s0: 0,
            s1: 0,
            a0: 0,
            a1: 0,
            a2: 0,
            a3: 0,
            a4: 0,
            a5: 0,
            a6: 0,
            a7: 0,
            s2: 0,
            s3: 0,
            s4: 0,
            s5: 0,
            s6: 0,
            s7: 0,
            s8: 0,
            s9: 0,
            s10: 0,
            s11: 0,
            t3: 0,
            t4: 0,
            t5: 0,
            t6: 0,
        }
    }
}

/// Scheduling state of a task.
#[derive(Debug, Clone, Copy, PartialEq, Eq, Structural)]
pub enum State {
    Running,
    Ready,
    Sleep,
    Zombie,
}

impl Default for State {
    /// A new task is ready to run.
    fn default() -> (r: Self)
        ensures
            r == State::Ready,
    {
        State::Ready
    }
}

/// Callee-saved registers of a kernel thread, switched between tasks.
#[derive(Debug, Default)]
pub struct Context {
    pub ra: u64,
    pub sp: u64,
    pub s0: u64,
    pub s1: u64,
    pub s2: u64,
    pub s3: u64,
    pub s4: u64,
    pub s5: u64,
    pub s6: u64,
    pub s7: u64,
    pub s8: u64,
    pub s9: u64,
    pub s10: u64,
    pub s11: u64,
}

impl Context {
    /// A context with every register zero.
    pub fn new() -> (r: Self)
        ensures
            r.ra == 0 && r.sp == 0 && r.s0 == 0 && r.s1 == 0 && r.s2 == 0 && r.s3 == 0 && r.s4 == 0
                && r.s5 == 0 && r.s6 == 0 && r.s7 == 0 && r.s8 == 0 && r.s9 == 0 && r.s10 == 0
                && r.s11 == 0,
    {
        Context {
            ra: 0,
            sp: 0,
            s0: 0,
            s1: 0,
            s2: 0,
            s3: 0,
            s4: 0,
            s5: 0,
            s6: 0,
            s7: 0,
            s8: 0,
            s9: 0,
            s10: 0,
            s11: 0,
        }
    }

    /// Sets `s1`.
    pub fn test(&mut self, s1: u64)
        ensures
            *final(self) == (Context { s1, ..*old(self) }),
    {
        self.s1 = s1;
    }
}

/// A hart: the task it runs, if any, and the context of its scheduler.
pub struct Cpu {
    pub proc: Option<usize>,
    pub context: Context,
}

impl Cpu {
    /// A hart running no task, with a zero context.
    pub fn new() -> (r: Self)
        ensures
            r.proc is None,
            r.context.ra == 0 && r.context.sp == 0,
    {
        Cpu { proc: None, context: Context::new() }
    }
}

/// A task control block.
#[derive(Default)]
pub struct Tcb {
    pub name: String,
    pub state: State,
    pub pid: usize,
    pub killed: bool,
    pub exit_code: usize,
    pub context: Context,
    /// Virtual base of the task's kernel stack.
    pub kstack: u64,
    /// The task's saved user registers; the task owns this page.
    pub trapframe: TrapFrame,
    /// The task's address space, once built.
    pub vm: Option<Uvm>,
    /// Pages the task owns outside its page tables (its trap-frame page).
    pub frames: Vec<PageFrame>,
}

impl Tcb {
    /// The task id.
    pub fn pid(&self) -> (r: &usize)
        ensures
            *r == self.pid,
    {
        &self.pid
    }

    /// The scheduling state.
    pub fn state(&self) -> (r: &State)
        ensures
            *r == self.state,
    {
        &self.state
    }

    /// The task name.
    pub fn name(&self) -> (r: &String)
        ensures
            r@ == self.name@,
    {
        &self.name
    }

    /// The virtual base of the kernel stack.
    pub fn kstack(&self) -> (r: &u64)
        ensures
            *r == self.kstack,
    {
        &self.kstack
    }
}

/// The first program a user task runs.
pub const INITCODE: [u8; 52] = [
    0x17, 0x05, 0x00, 0x00, 0x13, 0x05, 0x45, 0x02, 0x97, 0x05, 0x00, 0x00, 0x93, 0x85, 0x35, 0x02,
    0x93, 0x08, 0x70, 0x00, 0x73, 0x00, 0x00, 0x00, 0x93, 0x08, 0x20, 0x00, 0x73, 0x00, 0x00, 0x00,
    0xef, 0xf0, 0x9f, 0xff, 0x2f, 0x69, 0x6e, 0x69, 0x74, 0x00, 0x00, 0x24, 0x00, 0x00, 0x00, 0x00,
    0x00, 0x00, 0x00, 0x00,
];

/// Flags of a user code page: user-accessible, valid, executable, readable, writable.
pub const USER_CODE_FLAGS: u64 = 0x1f;

/// Builds the first task: its address space holds `INITCODE` on the page at
/// virtual address 0, the trampoline (whose code lies at physical address
/// `strampsec`) and the task's trap-frame page, which the task owns; it
/// starts at address 0 with its stack pointer at the end of that page.
pub fn zero_task(strampsec: u64, pool: &mut FramePool) -> (r: Result<Tcb, PageTableErr>)
    requires
        old(pool).wf(),
    ensures
        final(pool).wf(),
        r is Err ==> r == Err::<Tcb, PageTableErr>(PageTableErr::OutOfMemory) || r == Err::<
            Tcb,
            PageTableErr,
        >(PageTableErr::OutOfRange),
        old(pool).available() >= 9 && strampsec <= PA_LIMIT - 4096 ==> r is Ok,
        r matches Ok(t) ==> {
            &&& t.pid == 0
            &&& t.name@ == "initcode"@
            &&& t.state == State::Ready
            &&& !t.killed
            &&& t.kstack == spec_kstack(0)
            &&& t.context.sp == spec_kstack(0) + KERNEL_STACK_SIZE
            &&& t.trapframe.epc == 0
            &&& t.trapframe.sp == PGSZ
            &&& t.frames@.len() == 1
            &&& t.frames@[0].wf()
            &&& t.vm matches Some(u) && {
                &&& u.wf(*final(pool))
                &&& image_page_mapped(u.tree(), old(pool).outstanding(), 0, INITCODE@, 0, USER_CODE_FLAGS)
                &&& maps_to(
                    u.tree()@,
                    (TRAPFRAME / 4096) as u64,
                    pte_word(pa_ppn(t.frames@[0].spec_address()), TRAPFRAME_FLAGS),
                )
                &&& !u.tree().addresses().contains(t.frames@[0].spec_address())
                &&& maps_to(
                    u.tree()@,
                    (TRAMPOLINE / 4096) as u64,
                    pte_word((range_start(strampsec) / 4096) as u64, TRAMPOLINE_FLAGS),
                )
            }
        },
{
    let ghost out0 = old(pool).outstanding();
    let trapframe_page = match pool.allocate() {
        Some(page) => page,
        None => {
            return Err(PageTableErr::OutOfMemory);
        },
    };
    let trapframe = trapframe_page.address().0;
    let ghost pool_tf = *pool;
    let mut uvm = match Uvm::new(pool) {
        Some(u) => u,
        None => {
            return Err(PageTableErr::OutOfMemory);
        },
    };
    let code: &[u8] = &INITCODE;
    proof {
        assert(code@ == INITCODE@);
        assert(range_end(0, 52) == 4096 && range_start(0) == 0 && range_pages(0, 52) == 1);
        assert(PTE_FLAG_U | PTE_FLAG_V | PTE_FLAG_X | PTE_FLAG_R | PTE_FLAG_W == USER_CODE_FLAGS)
            by (bit_vector);
    }
    let ghost out1 = pool.outstanding();
    let ghost avail1 = pool.available();
    proof {
        assert(!uvm.tree()@.contains_key(crate::pagetable::range_vpn(0, 0)));
    }
    uvm.map_code(0, code, PTE_FLAG_U | PTE_FLAG_V | PTE_FLAG_X | PTE_FLAG_R | PTE_FLAG_W, pool)?;
    let ghost u1 = uvm;
    let ghost pool1 = *pool;
    proof {
        assert(!uvm.tree()@.contains_key((TRAMPOLINE / 4096) as u64));
        assert(!uvm.tree()@.contains_key((TRAPFRAME / 4096) as u64));
        assert(trapframe <= PA_LIMIT - 4096);
    }
    uvm.map_trap(trapframe, strampsec, pool)?;
    proof {
        let addrs = choose|addrs: Seq<u64>|
            #[trigger] image_pages_at(u1.tree(), out1, 0, INITCODE@, 1, USER_CODE_FLAGS, addrs);
        let a = addrs[0];
        assert(crate::address::is_frame_address(a));
        assert(out0.subset_of(out1));
        assert(maps_to(uvm.tree()@, crate::pagetable::range_vpn(0, 0), pte_word(pa_ppn(a), USER_CODE_FLAGS)));
        assert(crate::vm::holds_image_page(uvm.tree(), a, 0, INITCODE@, 0));
        assert(pool_tf.outstanding().contains(trapframe));
        assert(!uvm.tree().addresses().contains(trapframe)) by {
            if uvm.tree().addresses().contains(trapframe) {
                assert(pool1.outstanding().contains(trapframe));
                assert(u1.tree().addresses().contains(trapframe));
                assert(out1.contains(trapframe));
            }
        }
    }
    let mut frames: Vec<PageFrame> = Vec::new();
    frames.push(trapframe_page);
    let mut context = Context::new();
    context.sp = kstack(0) + KERNEL_STACK_SIZE;
    let name = "initcode".to_owned();
    proof {
        reveal_strlit("initcode");
        assert(maps_to(
            uvm.tree()@,
            (TRAPFRAME / 4096) as u64,
            pte_word(pa_ppn(trapframe), TRAPFRAME_FLAGS),
        )) by {
            crate::address::lemma_pa_ppn_div(trapframe);
            assert(range_start(trapframe) == trapframe);
        }
        assert(maps_to(
            uvm.tree()@,
            (TRAMPOLINE / 4096) as u64,
            pte_word((range_start(strampsec) / 4096) as u64, TRAMPOLINE_FLAGS),
        ));
    }
    Ok(
        Tcb {
            name,
            state: State::Ready,
            pid: 0,
            killed: false,
            exit_code: 0,
            context,
            kstack: kstack(0),
            trapframe: TrapFrame::user_entry(0, PGSZ),
            vm: Some(uvm),
            frames,
        },
    )
}

/// The queue of runnable tasks, served round robin.
pub struct TaskManager {
    pub tasks: VecDeque<Arc<Tcb>>,
}

impl TaskManager {
    /// An empty queue.
    pub fn init() -> (r: Self)
        ensures
            r.tasks@.len() == 0,
    {
        TaskManager { tasks: VecDeque::new() }
    }

    /// Adds `task` at the back of the queue.
    pub fn push(&mut self, task: Arc<Tcb>)
        ensures
            final(self).tasks@ == old(self).tasks@.push(task),
    {
        self.tasks.push_back(task);
    }

    /// The task at the front; it moves to the back of the queue. The queue
    /// must not be empty.
    pub fn pop(&mut self) -> (r: Option<Arc<Tcb>>)
        requires
            old(self).tasks@.len() > 0,
        ensures
            r == Some(old(self).tasks@[0]),
            final(self).tasks@.len() == old(self).tasks@.len(),
            final(self).tasks@.len() == old(self).tasks@.len(),
            final(self).tasks@.subrange(0, old(self).tasks@.len() - 1) == old(self).tasks@.drop_first(),
    {
        let task = self.tasks.pop_front().unwrap();
        self.tasks.push_back(task.clone());
        proof {
            assert(self.tasks@.subrange(0, old(self).tasks@.len() - 1) =~= old(self).tasks@.drop_first());
        }
        Some(task)
    }
}

} // verus!
