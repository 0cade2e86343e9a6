//! The registers a task's trap saves, as the task table keeps them.
use vstd::prelude::*;

verus! {

/// Index of register `a0`, which carries a system call's return value.
pub const REG_A0: usize = 10;

/// The registers saved when a task traps into the kernel: the 32 general
/// registers, `sstatus` and `sepc`.
#[derive(Clone, Copy, PartialEq, Eq, Debug)]
pub struct TrapContext {
    pub x: [usize; 32],
    pub sstatus: usize,
    pub sepc: usize,
}

/// The abstract value of a [`TrapContext`].
pub struct TrapFrame {
    pub x: Seq<usize>,
    pub sstatus: usize,
    pub sepc: usize,
}

impl View for TrapContext {
    type V = TrapFrame;

    open spec fn view(&self) -> TrapFrame {
        TrapFrame { x: self.x@, sstatus: self.sstatus, sepc: self.sepc }
    }
}

} // verus!
