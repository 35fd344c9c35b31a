//! Per-process console output buffering: bytes are gathered per process
//! and handed out as one block when the process's line is flushed.
use vstd::prelude::*;

verus! {

/// The pending output bytes of one process.
pub struct ConsoleBuffer {
    pub inner: Vec<u8>,
}

impl ConsoleBuffer {
    pub fn new() -> (r: ConsoleBuffer)
        ensures
            r.inner@.len() == 0,
    {
        ConsoleBuffer { inner: Vec::new() }
    }

    /// Append bytes to the pending output.
    pub fn push_bytes(&mut self, buf: &Vec<u8>)
        ensures
            final(self).inner@ == old(self).inner@ + buf@,
    {
        let n = buf.len();
        let mut i: usize = 0;
        while i < n
            invariant
                i <= n,
                n == buf@.len(),
                self.inner@ == old(self).inner@ + buf@.take(i as int),
            decreases n - i,
        {
            self.inner.push(buf[i]);
            proof {
                assert(self.inner@ =~= old(self).inner@ + buf@.take(i + 1));
            }
            i += 1;
        }
        proof {
            assert(self.inner@ =~= old(self).inner@ + buf@);
        }
    }
}

/// The console buffers of all processes, keyed by process identifier.
pub struct ConsoleBufferManager {
    buffers: Vec<(usize, ConsoleBuffer)>,
}

impl ConsoleBufferManager {
    /// Keys present, in insertion order.
    pub closed spec fn spec_pids(self) -> Seq<usize> {
        self.buffers@.map(|i: int, e: (usize, ConsoleBuffer)| e.0)
    }

    /// The pending bytes stored for `pid`; empty when none are pending.
    pub closed spec fn spec_buffer_of(self, pid: usize) -> Seq<u8> {
        if exists|i: int| 0 <= i < self.buffers@.len() && (#[trigger] self.buffers@[i]).0 == pid {
            let i = choose|i: int|
                0 <= i < self.buffers@.len() && (#[trigger] self.buffers@[i]).0 == pid;
            self.buffers@[i].1.inner@
        } else {
            Seq::empty()
        }
    }

    /// Under distinct keys, the slot holding `pid` is the stored buffer.
    proof fn lemma_pid_slot(self, pid: usize, i: int)
        requires
            self.wf(),
            0 <= i < self.buffers@.len(),
            self.buffers@[i].0 == pid,
        ensures
            self.spec_buffer_of(pid) == self.buffers@[i].1.inner@,
    {
        let i2 = choose|i2: int|
            0 <= i2 < self.buffers@.len() && (#[trigger] self.buffers@[i2]).0 == pid;
        if i2 != i {
            assert(self.buffers@[if i < i2 { i } else { i2 }].0 != self.buffers@[if i < i2 {
                i2
            } else {
                i
            }].0);
        }
    }

    pub closed spec fn wf(self) -> bool {
        forall|i: int, j: int|
            0 <= i < j < self.buffers@.len() ==> (#[trigger] self.buffers@[i]).0
                != (#[trigger] self.buffers@[j]).0
    }

    pub fn new() -> (r: ConsoleBufferManager)
        ensures
            r.wf(),
            r.spec_pids().len() == 0,
    {
        ConsoleBufferManager { buffers: Vec::new() }
    }

    /// Index of the buffer of `pid`, if present.
    fn find(&self, pid: usize) -> (r: Option<usize>)
        ensures
            match r {
                Some(i) => i < self.spec_pids().len() && self.spec_pids()[i as int] == pid,
                None => !self.spec_pids().contains(pid),
            },
    {
        let n = self.buffers.len();
        let mut i: usize = 0;
        while i < n
            invariant
                i <= n,
                n == self.buffers@.len(),
                forall|j: int| 0 <= j < i ==> (#[trigger] self.buffers@[j]).0 != pid,
            decreases n - i,
        {
            if self.buffers[i].0 == pid {
                return Some(i);
            }
            i += 1;
        }
        proof {
            if self.spec_pids().contains(pid) {
                let j = choose|j: int|
                    0 <= j < self.spec_pids().len() && self.spec_pids()[j] == pid;
                assert(self.buffers@[j].0 == pid);
            }
        }
        None
    }

    /// Take the buffer of `pid` out, if it has one.
    pub fn get_output_buffer(&mut self, pid: usize) -> (r: Option<ConsoleBuffer>)
        requires
            old(self).wf(),
        ensures
            final(self).wf(),
            r is Some <==> old(self).spec_pids().contains(pid),
            !final(self).spec_pids().contains(pid),
            r is None ==> *final(self) == *old(self),
            // the handed-out block is exactly what was pending for `pid`
            r is Some ==> r->0.inner@ == old(self).spec_buffer_of(pid),
    {
        let idx = self.find(pid);
        match idx {
            Some(i) => {
                proof {
                    old(self).lemma_pid_slot(pid, i as int);
                }
                let (_p, buf) = self.buffers.remove(i);
                proof {
                    assert forall|j: int|
                        0 <= j < self.spec_pids().len() implies (#[trigger] self.spec_pids()[j])
                            != pid by {
                        if j < i {
                            assert(self.buffers@[j] == old(self).buffers@[j]);
                        } else {
                            assert(self.buffers@[j] == old(self).buffers@[j + 1]);
                        }
                    };
                    assert(old(self).spec_pids()[i as int] == pid);
                }
                Some(buf)
            },
            None => None,
        }
    }

    /// Whether `pid` has a pending buffer.
    pub fn peek_output_buffer(&self, pid: usize) -> (r: bool)
        ensures
            r == self.spec_pids().contains(pid),
    {
        let idx = self.find(pid);
        proof {
            if idx is Some {
                assert(self.spec_pids().contains(pid));
            }
        }
        idx.is_some()
    }

    /// Start a fresh, empty buffer for `pid`, replacing a pending one.
    pub fn fetch_new_buffer(&mut self, pid: usize)
        requires
            old(self).wf(),
        ensures
            final(self).wf(),
            final(self).spec_pids().contains(pid),
            final(self).spec_buffer_of(pid) == Seq::<u8>::empty(),
    {
        let _ = self.get_output_buffer(pid);
        let ghost mid = *self;
        self.buffers.push((pid, ConsoleBuffer::new()));
        proof {
            assert(self.spec_pids()[self.spec_pids().len() - 1] == pid);
            assert(self.spec_pids().contains(pid));
            assert(forall|j: int|
                0 <= j < mid.buffers@.len() ==> #[trigger] self.buffers@[j] == mid.buffers@[j]);
            assert forall|j: int, k: int|
                0 <= j < k < self.buffers@.len() implies (#[trigger] self.buffers@[j]).0 != (
            #[trigger] self.buffers@[k]).0 by {
                if k == self.buffers@.len() - 1 {
                    assert(self.buffers@[j] == mid.buffers@[j]);
                    if mid.buffers@[j].0 == pid {
                        assert(mid.spec_pids()[j] == pid);
                        assert(mid.spec_pids().contains(pid));
                    }
                }
            };
            self.lemma_pid_slot(pid, self.buffers@.len() - 1);
        }
    }

    /// Append output for `pid`, opening a buffer when none is pending.
    pub fn buffer_print(&mut self, pid: usize, buf: &Vec<u8>)
        requires
            old(self).wf(),
        ensures
            final(self).wf(),
            final(self).spec_pids().contains(pid),
            // what is pending afterwards: the bytes appended to what was
            // pending before, or to nothing
            old(self).spec_pids().contains(pid) ==> final(self).spec_buffer_of(pid) == old(self).spec_buffer_of(pid) + buf@,
            !old(self).spec_pids().contains(pid) ==> final(self).spec_buffer_of(pid) == buf@,
    {
        let has_buf = self.peek_output_buffer(pid);
        if !has_buf {
            self.fetch_new_buffer(pid);
        }
        let ghost mid = *self;
        let idx = self.find(pid);
        match idx {
            Some(i) => {
                let ghost pre = *self;
                proof {
                    pre.lemma_pid_slot(pid, i as int);
                    if has_buf {
                        assert(pre == *old(self));
                    } else {
                        assert(mid.spec_buffer_of(pid) == Seq::<u8>::empty());
                    }
                }
                let entry = &mut self.buffers[i];
                entry.1.push_bytes(buf);
                proof {
                    assert(self.buffers@[i as int].0 == pre.buffers@[i as int].0);
                    assert(forall|j: int|
                        0 <= j < self.buffers@.len() && j != i ==> #[trigger] self.buffers@[j]
                            == pre.buffers@[j]);
                    assert(self.spec_pids() =~= pre.spec_pids());
                    assert(self.buffers@[i as int].1.inner@ == pre.buffers@[i as int].1.inner@
                        + buf@);
                    self.lemma_pid_slot(pid, i as int);
                    if !has_buf {
                        assert(self.spec_buffer_of(pid) =~= buf@);
                    }
                }
            },
            None => {},
        }
    }
}

} // verus!
