//! Virtual-memory core of a small multi-hart kernel: a physical frame
//! allocator with reference counting, a multi-level page table, and an
//! address-space manager (`MemorySet`) with copy-on-write frame sharing
//! and lazy (fault-driven) allocation of heap and mmap regions.

pub mod address;
pub mod area;
pub mod console;
pub mod consts;
pub mod dev;
pub mod info;
pub mod kernel_stack;
pub mod loader;
pub mod open_flags;
pub mod frame_allocator;
pub mod memory_set;
pub mod dirent;
pub mod page_table;
pub mod stat;
pub mod task;
