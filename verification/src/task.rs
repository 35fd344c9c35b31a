//! Task-level bookkeeping records and the identifier allocator behind
//! process and thread ids.
use vstd::prelude::*;

verus! {

/// What a task clone call recorded.
#[derive(Clone, Copy, Debug)]
pub struct CloneInfo {
    pub clear_child_tid: usize,
    pub set_child_tid: usize,
    pub tls: usize,
}

impl CloneInfo {
    pub fn empty() -> (r: CloneInfo)
        ensures
            r.clear_child_tid == 0 && r.set_child_tid == 0 && r.tls == 0,
    {
        CloneInfo { clear_child_tid: 0, set_child_tid: 0, tls: 0 }
    }
}

/// Microsecond-resolution running times of one task.
#[derive(Clone, Copy, Debug)]
pub struct TimeInfo {
    pub utime_usec: u64,
    pub stime_usec: u64,
    pub last_enter_umode_usec: u64,
    pub last_enter_smode_usec: u64,
}

impl TimeInfo {
    pub fn empty() -> (r: TimeInfo)
        ensures
            r.utime_usec == 0 && r.stime_usec == 0,
            r.last_enter_umode_usec == 0 && r.last_enter_smode_usec == 0,
    {
        TimeInfo { utime_usec: 0, stime_usec: 0, last_enter_umode_usec: 0, last_enter_smode_usec: 0 }
    }
}

/// The run state of a task.
#[derive(Clone, Copy, Debug, PartialEq, Eq, Structural)]
pub enum TaskStatus {
    Ready,
    Running,
    Blocked,
    Hanging,
    Zombie,
}

/// A recycling identifier allocator: freed identifiers are reused
/// most-recently-freed first, fresh ones count up from zero.
pub struct RecycleAllocator {
    current: usize,
    recycled: Vec<usize>,
}

impl RecycleAllocator {
    /// Identifiers handed out so far, recycled ones included.
    pub closed spec fn spec_current(self) -> usize {
        self.current
    }

    /// The stack of freed identifiers.
    pub closed spec fn spec_recycled(self) -> Seq<usize> {
        self.recycled@
    }

    pub closed spec fn wf(self) -> bool {
        &&& forall|i: int|
            0 <= i < self.recycled@.len() ==> #[trigger] self.recycled@[i] < self.current
        &&& forall|i: int, j: int|
            0 <= i < j < self.recycled@.len() ==> #[trigger] self.recycled@[i]
                != #[trigger] self.recycled@[j]
    }

    pub fn new() -> (r: RecycleAllocator)
        ensures
            r.wf(),
            r.spec_current() == 0,
            r.spec_recycled().len() == 0,
    {
        RecycleAllocator { current: 0, recycled: Vec::new() }
    }

    /// Hand out an identifier: the most recently freed one, or a fresh one.
    pub fn alloc_id(&mut self) -> (r: usize)
        requires
            old(self).wf(),
            old(self).spec_current() < usize::MAX,
        ensures
            final(self).wf(),
            old(self).spec_recycled().len() > 0 ==> r == old(self).spec_recycled().last()
                && final(self).spec_recycled() == old(self).spec_recycled().drop_last() && final(self).spec_current() == old(self).spec_current(),
            old(self).spec_recycled().len() == 0 ==> r == old(self).spec_current() && final(self).spec_current() == old(self).spec_current() + 1 && final(self).spec_recycled()
                == old(self).spec_recycled(),
            r < final(self).spec_current(),
            !final(self).spec_recycled().contains(r),
    {
        let popped = self.recycled.pop();
        match popped {
            Some(id) => {
                proof {
                    assert(forall|i: int|
                        0 <= i < self.recycled@.len() ==> #[trigger] self.recycled@[i]
                            == old(self).spec_recycled()[i]);
                }
                id
            },
            None => {
                self.current = self.current + 1;
                self.current - 1
            },
        }
    }

    /// Give an identifier back. Freeing one that was never handed out, or
    /// freeing one twice, is a corrupted identifier space and is ruled
    /// out by the precondition.
    pub fn dealloc_id(&mut self, id: usize)
        requires
            old(self).wf(),
            id < old(self).spec_current(),
            !old(self).spec_recycled().contains(id),
        ensures
            final(self).wf(),
            final(self).spec_current() == old(self).spec_current(),
            final(self).spec_recycled() == old(self).spec_recycled().push(id),
    {
        self.recycled.push(id);
    }
}

} // verus!
