//! Layout constants of the kernel's virtual-memory design.
use vstd::prelude::*;

verus! {

/// One page is 4 KiB; no other page size is supported.
pub const PAGE_SIZE: usize = 0x1000;

/// Size of one user stack, in bytes.
pub const USER_STACK_SIZE: usize = 4096 * 2048;

/// Stack size of an application process in the kernel.
pub const KERNEL_STACK_SIZE: usize = 4096 * 32;

/// Fixed upper limit of a process heap, in bytes.
pub const USER_HEAP_SIZE: usize = 4096 * 30000;

/// End of physical memory.
pub const PHYS_END: usize = 0x8800_0000;

/// Starting address of the trampoline page, the highest page in the
/// virtual address space.
pub const TRAMPOLINE: usize = usize::MAX - PAGE_SIZE + 1;

/// Location of the trap context page in an application address space:
/// the page directly below the trampoline.
pub const TRAP_CONTEXT: usize = TRAMPOLINE - PAGE_SIZE;

/// Largest virtual page number that still converts to a byte address.
pub const MAX_VPN: usize = usize::MAX / PAGE_SIZE;

} // verus!
