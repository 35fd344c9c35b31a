//! Kernel-stack placement: each task's kernel stack hangs below the
//! trampoline, one stack plus one guard page per identifier.
use vstd::prelude::*;

use crate::consts::{KERNEL_STACK_SIZE, PAGE_SIZE, TRAMPOLINE};

verus! {

/// Return (bottom, top) of the kernel stack of task `kstack_id` in kernel
/// space.
pub fn kernel_stack_position(kstack_id: usize) -> (r: (usize, usize))
    requires
        kstack_id * (KERNEL_STACK_SIZE + PAGE_SIZE) < TRAMPOLINE - KERNEL_STACK_SIZE,
    ensures
        r.1 == TRAMPOLINE - kstack_id * (KERNEL_STACK_SIZE + PAGE_SIZE),
        r.0 == r.1 - KERNEL_STACK_SIZE,
        r.0 < r.1,
{
    let top = TRAMPOLINE - kstack_id * (KERNEL_STACK_SIZE + PAGE_SIZE);
    let bottom = top - KERNEL_STACK_SIZE;
    (bottom, top)
}

/// A task's kernel stack, named by its stack identifier.
pub struct KernelStack(pub usize);

impl KernelStack {
    /// The stack for identifier `kstack_id`.
    pub fn new(kstack_id: usize) -> (r: KernelStack)
        ensures
            r.0 == kstack_id,
    {
        KernelStack(kstack_id)
    }

    /// The top address of this stack, a function of the identifier alone.
    pub fn top(&self) -> (r: usize)
        requires
            self.0 * (KERNEL_STACK_SIZE + PAGE_SIZE) < TRAMPOLINE - KERNEL_STACK_SIZE,
        ensures
            r == TRAMPOLINE - self.0 * (KERNEL_STACK_SIZE + PAGE_SIZE),
    {
        let (_bottom, top) = kernel_stack_position(self.0);
        top
    }
}

} // verus!
