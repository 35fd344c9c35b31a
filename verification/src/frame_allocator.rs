//! Physical frame allocation with per-frame reference counting.
//!
//! The allocator owns the physical page pool: a bump region `[current, end)`,
//! a LIFO stack of recycled page numbers, a reference count per frame, and
//! the byte contents of every frame in the managed range. A frame returns to
//! the recycle stack exactly when its reference count reaches zero. The
//! count is authoritative: `FrameTracker` handles are created only through
//! operations that increment it, and released by `dealloc_frame`.
use vstd::prelude::*;

use crate::address::PhysPageNum;
use crate::consts::PAGE_SIZE;

verus! {

/// An owning handle to one physical page frame. Creating one increments the
/// frame's reference count; `dealloc_frame` releases it. Every exit path of
/// a structure that holds trackers releases them explicitly.
pub struct FrameTracker {
    pub ppn: PhysPageNum,
}

/// The physical frame manager: reference counts, the free pool, and the
/// byte contents of every managed frame.
pub struct StackFrameAllocator {
    /// First managed page number.
    base_num: usize,
    /// One past the last managed page number.
    end: usize,
    /// Next free page of the bump region; pages in `[current, end)` have
    /// never been handed out.
    current: usize,
    /// Page numbers whose count returned to zero, reused most-recent-first.
    recycled: Vec<usize>,
    /// Reference count of page `base_num + i`, zero when free.
    counts: Vec<usize>,
    /// Byte contents of page `base_num + i`.
    pages: Vec<Vec<u8>>,
}

impl StackFrameAllocator {
    /// Reference count of frame `ppn`; zero for free or unmanaged frames.
    pub closed spec fn count(self, ppn: PhysPageNum) -> nat {
        if self.base_num <= ppn.0 < self.end && self.counts@.len() > ppn.0 - self.base_num {
            self.counts@[ppn.0 - self.base_num] as nat
        } else {
            0
        }
    }

    /// Whether some live handle references frame `ppn`.
    pub open spec fn has_ref(self, ppn: PhysPageNum) -> bool {
        self.count(ppn) >= 1
    }

    /// Byte contents of frame `ppn`.
    pub closed spec fn page(self, ppn: PhysPageNum) -> Seq<u8> {
        self.pages@[ppn.0 - self.base_num]@
    }

    /// Whether `ppn` lies in the managed range.
    pub open spec fn manages(self, ppn: PhysPageNum) -> bool {
        self.spec_base() <= ppn.0 < self.spec_end()
    }

    /// How many frames can still be handed out.
    pub closed spec fn free_frames(self) -> int {
        self.end - self.current + self.recycled@.len()
    }

    pub closed spec fn spec_base(self) -> usize {
        self.base_num
    }

    pub closed spec fn spec_end(self) -> usize {
        self.end
    }

    /// Internal consistency of the pool.
    pub closed spec fn wf(self) -> bool {
        &&& self.base_num <= self.current <= self.end
        &&& self.counts@.len() == self.end - self.base_num
        &&& self.pages@.len() == self.end - self.base_num
        &&& forall|i: int| 0 <= i < self.pages@.len() ==> (#[trigger] self.pages@[i])@.len() == PAGE_SIZE
        &&& forall|i: int|
            0 <= i < self.recycled@.len() ==> self.base_num <= #[trigger] self.recycled@[i]
                < self.current
        &&& forall|i: int|
            0 <= i < self.recycled@.len() ==> self.counts@[#[trigger] self.recycled@[i] - self.base_num]
                == 0
        &&& forall|i: int, j: int|
            0 <= i < j < self.recycled@.len() ==> #[trigger] self.recycled@[i]
                != #[trigger] self.recycled@[j]
        &&& forall|p: int|
            self.base_num <= p < self.end && #[trigger] self.counts@[p - self.base_num] > 0
                ==> self.base_num <= p < self.current
        // every never-handed-out page of the bump region is free
        &&& forall|p: int|
            self.current <= p < self.end ==> self.counts@[#[trigger] (p - self.base_num)] == 0
    }

    /// An empty manager with no frames under management.
    pub fn new() -> (r: Self)
        ensures
            r.wf(),
            r.spec_base() == 0 && r.spec_end() == 0,
            r.free_frames() == 0,
            forall|p: PhysPageNum| !r.has_ref(p),
    {
        StackFrameAllocator {
            base_num: 0,
            end: 0,
            current: 0,
            recycled: Vec::new(),
            counts: Vec::new(),
            pages: Vec::new(),
        }
    }

    /// Hand the page range `[l, r)` to the manager. Every frame starts
    /// free with zeroed contents.
    ///
    /// - `l`: free memory start page number
    /// - `r`: free memory end page number
    pub fn init(&mut self, l: PhysPageNum, r: PhysPageNum)
        requires
            l.0 <= r.0,
        ensures
            final(self).wf(),
            final(self).spec_base() == l.0 && final(self).spec_end() == r.0,
            final(self).free_frames() == r.0 - l.0,
            final(self).spec_next_free() == l.0,
            final(self).spec_recycled_count() == 0,
            forall|p: PhysPageNum| !final(self).has_ref(p),
            forall|p: PhysPageNum|
                final(self).manages(p) ==> final(self).page(p) == zero_page(),
    {
        let n = r.0 - l.0;
        let mut counts: Vec<usize> = Vec::new();
        let mut pages: Vec<Vec<u8>> = Vec::new();
        let mut i: usize = 0;
        while i < n
            invariant
                i <= n,
                counts@.len() == i,
                pages@.len() == i,
                forall|k: int| 0 <= k < i ==> counts@[k] == 0,
                forall|k: int| 0 <= k < i ==> (#[trigger] pages@[k])@ == zero_page(),
            decreases n - i,
        {
            counts.push(0);
            pages.push(zeroed_page_bytes());
            i += 1;
        }
        self.base_num = l.0;
        self.current = l.0;
        self.end = r.0;
        self.recycled = Vec::new();
        self.counts = counts;
        self.pages = pages;
    }
}

impl StackFrameAllocator {
    /// The frame the next allocation will return: the most recently
    /// recycled page if any (LIFO reuse), else the next bump page.
    pub closed spec fn spec_next_free(self) -> int {
        if self.recycled@.len() > 0 {
            self.recycled@.last() as int
        } else {
            self.current as int
        }
    }

    /// How many recycled frames wait for reuse.
    pub closed spec fn spec_recycled_count(self) -> int {
        self.recycled@.len() as int
    }
}

/// A well-formed pool never reports a negative capacity.
pub proof fn lemma_free_frames_nonneg(a: StackFrameAllocator)
    requires
        a.wf(),
    ensures
        a.free_frames() >= 0,
        a.spec_recycled_count() >= 0,
{
}

/// The recycle stack holds at most one entry per handed-out page, so
/// the pool's capacity never exceeds its size.
proof fn lemma_recycled_bounded(a: StackFrameAllocator)
    requires
        a.wf(),
    ensures
        a.free_frames() <= a.spec_end() - a.spec_base(),
{
    let s = a.recycled@.map_values(|x: usize| x as int);
    assert(s.no_duplicates()) by {
        assert forall|i: int, j: int|
            0 <= i < s.len() && 0 <= j < s.len() && i != j implies s[i] != s[j] by {
            if i < j {
                assert(a.recycled@[i] != a.recycled@[j]);
            } else {
                assert(a.recycled@[j] != a.recycled@[i]);
            }
        };
    };
    s.unique_seq_to_set();
    assert(s.to_set().subset_of(crate::address::spec_int_range(
        a.spec_base() as int,
        a.current as int,
    ))) by {
        assert forall|x: int| s.to_set().contains(x) implies crate::address::spec_int_range(
            a.spec_base() as int,
            a.current as int,
        ).contains(x) by {
            let i = choose|i: int| 0 <= i < s.len() && s[i] == x;
            assert(a.recycled@[i] as int == x);
        };
    };
    crate::address::lemma_spec_int_range(a.spec_base() as int, a.current as int);
    vstd::set_lib::lemma_len_subset(
        s.to_set(),
        crate::address::spec_int_range(a.spec_base() as int, a.current as int),
    );
    assert(a.recycled@.len() <= a.current - a.spec_base());
}

/// The number of frames that can still be handed out.
pub fn free_frame_count(a: &StackFrameAllocator) -> (r: usize)
    requires
        a.wf(),
    ensures
        r == a.free_frames(),
{
    proof {
        lemma_recycled_bounded(*a);
    }
    a.end - a.current + a.recycled.len()
}

/// Allocate one frame: its reference count becomes 1 and its contents are
/// zeroed. Returns `None` exactly when the pool is exhausted.
pub fn alloc_frame(a: &mut StackFrameAllocator) -> (r: Option<FrameTracker>)
    requires
        old(a).wf(),
    ensures
        final(a).wf(),
        final(a).spec_base() == old(a).spec_base(),
        final(a).spec_end() == old(a).spec_end(),
        old(a).free_frames() == 0 ==> r is None && final(a).free_frames() == 0,
        forall|p: PhysPageNum| #[trigger] final(a).count(p) >= old(a).count(p),
        old(a).free_frames() > 0 ==> {
            &&& r is Some
            &&& r->Some_0.ppn.0 == old(a).spec_next_free()
            &&& old(a).manages(r->Some_0.ppn)
            &&& !old(a).has_ref(r->Some_0.ppn)
            &&& final(a).count(r->Some_0.ppn) == 1
            &&& final(a).page(r->Some_0.ppn) == zero_page()
            &&& final(a).free_frames() == old(a).free_frames() - 1
        },
        // the bump order is observable: without recycled frames the pool
        // hands out successive page numbers
        old(a).spec_recycled_count() == 0 && old(a).free_frames() > 0 ==> final(a).spec_recycled_count() == 0 && final(a).spec_next_free() == old(a).spec_next_free() + 1,
        old(a).spec_recycled_count() > 0 ==> final(a).spec_recycled_count() == old(a).spec_recycled_count() - 1,
        forall|p: PhysPageNum|
            (r is Some ==> p != r->Some_0.ppn) ==> #[trigger] final(a).count(p) == old(a).count(p),
        forall|p: PhysPageNum|
            old(a).manages(p) && (r is Some ==> p != r->Some_0.ppn) ==> #[trigger] final(a).page(p)
                == old(a).page(p),
{
    let popped = a.recycled.pop();
    match popped {
        Some(ppn) => {
            let idx = ppn - a.base_num;
            a.counts[idx] = 1;
            a.pages[idx] = zeroed_page_bytes();
            Some(FrameTracker { ppn: PhysPageNum(ppn) })
        },
        None => {
            if a.current == a.end {
                None
            } else {
                let ppn = a.current;
                a.current = ppn + 1;
                let idx = ppn - a.base_num;
                a.counts[idx] = 1;
                a.pages[idx] = zeroed_page_bytes();
                Some(FrameTracker { ppn: PhysPageNum(ppn) })
            }
        },
    }
}

/// Release one reference to frame `ppn`. When the count reaches zero the
/// frame is pushed onto the recycle stack and will be the next one reused.
/// Releasing a frame that holds no reference is a corrupted ownership
/// graph and is ruled out by the precondition.
pub fn dealloc_frame(a: &mut StackFrameAllocator, ppn: PhysPageNum)
    requires
        old(a).wf(),
        old(a).count(ppn) >= 1,
    ensures
        final(a).wf(),
        final(a).spec_base() == old(a).spec_base(),
        final(a).spec_end() == old(a).spec_end(),
        final(a).count(ppn) == old(a).count(ppn) - 1,
        forall|p: PhysPageNum| p != ppn ==> #[trigger] final(a).count(p) == old(a).count(p),
        forall|p: PhysPageNum|
            old(a).manages(p) ==> #[trigger] final(a).page(p) == old(a).page(p),
        old(a).count(ppn) == 1 ==> final(a).free_frames() == old(a).free_frames() + 1
            && final(a).spec_next_free() == ppn.0 && final(a).spec_recycled_count() == old(a).spec_recycled_count() + 1,
        old(a).count(ppn) > 1 ==> final(a).free_frames() == old(a).free_frames() && final(a).spec_recycled_count() == old(a).spec_recycled_count(),
{
    let idx = ppn.0 - a.base_num;
    let c = a.counts[idx];
    a.counts[idx] = c - 1;
    if c == 1 {
        a.recycled.push(ppn.0);
    }
}

/// Add one reference to frame `ppn`: used exactly once per additional
/// sharer when a copy-on-write mapping is established.
pub fn frame_add_ref(a: &mut StackFrameAllocator, ppn: PhysPageNum)
    requires
        old(a).wf(),
        old(a).count(ppn) >= 1,
        old(a).count(ppn) < usize::MAX,
    ensures
        final(a).wf(),
        final(a).spec_base() == old(a).spec_base(),
        final(a).spec_end() == old(a).spec_end(),
        final(a).count(ppn) == old(a).count(ppn) + 1,
        forall|p: PhysPageNum| p != ppn ==> #[trigger] final(a).count(p) == old(a).count(p),
        forall|p: PhysPageNum|
            old(a).manages(p) ==> #[trigger] final(a).page(p) == old(a).page(p),
        final(a).free_frames() == old(a).free_frames(),
        final(a).spec_next_free() == old(a).spec_next_free(),
{
    let idx = ppn.0 - a.base_num;
    let c = a.counts[idx];
    a.counts[idx] = c + 1;
}

/// Report the current reference count of frame `ppn`.
pub fn enquire_refcount(a: &StackFrameAllocator, ppn: PhysPageNum) -> (r: usize)
    requires
        a.wf(),
        a.count(ppn) >= 1,
    ensures
        r == a.count(ppn),
{
    a.counts[ppn.0 - a.base_num]
}

impl FrameTracker {
    /// A handle to a freshly claimed frame: zeroes the frame's contents
    /// and adds one reference.
    pub fn new(ppn: PhysPageNum, a: &mut StackFrameAllocator) -> (r: Self)
        requires
            old(a).wf(),
            old(a).count(ppn) >= 1,
            old(a).count(ppn) < usize::MAX,
        ensures
            r.ppn == ppn,
            final(a).wf(),
            final(a).spec_base() == old(a).spec_base(),
            final(a).spec_end() == old(a).spec_end(),
            final(a).count(ppn) == old(a).count(ppn) + 1,
            forall|p: PhysPageNum| p != ppn ==> #[trigger] final(a).count(p) == old(a).count(p),
            forall|p: PhysPageNum| #[trigger] final(a).count(p) >= old(a).count(p),
            final(a).page(ppn) == zero_page(),
            forall|p: PhysPageNum|
                old(a).manages(p) && p != ppn ==> #[trigger] final(a).page(p) == old(a).page(p),
            final(a).free_frames() == old(a).free_frames(),
    {
        let idx = ppn.0 - a.base_num;
        a.pages[idx] = zeroed_page_bytes();
        frame_add_ref(a, ppn);
        FrameTracker { ppn }
    }

    /// A further handle to an already-referenced frame: adds one reference
    /// without touching the contents (copy-on-write sharing).
    pub fn from_ppn(ppn: PhysPageNum, a: &mut StackFrameAllocator) -> (r: Self)
        requires
            old(a).wf(),
            old(a).count(ppn) >= 1,
            old(a).count(ppn) < usize::MAX,
        ensures
            r.ppn == ppn,
            final(a).wf(),
            final(a).spec_base() == old(a).spec_base(),
            final(a).spec_end() == old(a).spec_end(),
            final(a).count(ppn) == old(a).count(ppn) + 1,
            forall|p: PhysPageNum| p != ppn ==> #[trigger] final(a).count(p) == old(a).count(p),
            forall|p: PhysPageNum| #[trigger] final(a).count(p) >= old(a).count(p),
            forall|p: PhysPageNum|
                old(a).manages(p) ==> #[trigger] final(a).page(p) == old(a).page(p),
            final(a).free_frames() == old(a).free_frames(),
    {
        frame_add_ref(a, ppn);
        FrameTracker { ppn }
    }
}

/// Read one byte of frame `ppn`.
pub fn read_byte(a: &StackFrameAllocator, ppn: PhysPageNum, off: usize) -> (r: u8)
    requires
        a.wf(),
        a.manages(ppn),
        off < PAGE_SIZE,
    ensures
        r == a.page(ppn)[off as int],
{
    a.pages[ppn.0 - a.base_num][off]
}

/// Write one byte of frame `ppn`.
pub fn write_byte(a: &mut StackFrameAllocator, ppn: PhysPageNum, off: usize, v: u8)
    requires
        old(a).wf(),
        old(a).manages(ppn),
        off < PAGE_SIZE,
    ensures
        final(a).wf(),
        final(a).spec_base() == old(a).spec_base(),
        final(a).spec_end() == old(a).spec_end(),
        final(a).page(ppn) == old(a).page(ppn).update(off as int, v),
        forall|p: PhysPageNum|
            old(a).manages(p) && p != ppn ==> #[trigger] final(a).page(p) == old(a).page(p),
        forall|p: PhysPageNum| #[trigger] final(a).count(p) == old(a).count(p),
        final(a).free_frames() == old(a).free_frames(),
        final(a).spec_next_free() == old(a).spec_next_free(),
{
    let idx = ppn.0 - a.base_num;
    a.pages[idx][off] = v;
}

/// Copy the full contents of frame `src` into frame `dst`.
pub fn copy_page(a: &mut StackFrameAllocator, src: PhysPageNum, dst: PhysPageNum)
    requires
        old(a).wf(),
        old(a).manages(src),
        old(a).manages(dst),
        src != dst,
    ensures
        final(a).wf(),
        final(a).spec_base() == old(a).spec_base(),
        final(a).spec_end() == old(a).spec_end(),
        final(a).page(dst) == old(a).page(src),
        forall|p: PhysPageNum|
            old(a).manages(p) && p != dst ==> #[trigger] final(a).page(p) == old(a).page(p),
        forall|p: PhysPageNum| #[trigger] final(a).count(p) == old(a).count(p),
        final(a).free_frames() == old(a).free_frames(),
        final(a).spec_next_free() == old(a).spec_next_free(),
{
    let src_idx = src.0 - a.base_num;
    let dst_idx = dst.0 - a.base_num;
    let mut buf: Vec<u8> = Vec::new();
    let mut i: usize = 0;
    while i < PAGE_SIZE
        invariant
            i <= PAGE_SIZE,
            a.wf(),
            a.manages(src),
            src_idx == src.0 - a.spec_base(),
            buf@.len() == i,
            forall|k: int| 0 <= k < i ==> buf@[k] == a.page(src)[k],
        decreases PAGE_SIZE - i,
    {
        let b = a.pages[src_idx][i];
        buf.push(b);
        i += 1;
    }
    proof {
        assert(buf@ =~= a.page(src));
    }
    a.pages[dst_idx] = buf;
}

/// In a well-formed pool every managed frame's contents are one page.
pub proof fn lemma_page_len(a: StackFrameAllocator, ppn: PhysPageNum)
    requires
        a.wf(),
        a.manages(ppn),
    ensures
        a.page(ppn).len() == PAGE_SIZE,
{
}

/// A page worth of zero bytes.
pub open spec fn zero_page() -> Seq<u8> {
    Seq::new(PAGE_SIZE as nat, |i: int| 0u8)
}

/// A freshly zeroed page buffer.
fn zeroed_page_bytes() -> (r: Vec<u8>)
    ensures
        r@ == zero_page(),
{
    let mut v: Vec<u8> = Vec::new();
    let mut i: usize = 0;
    while i < PAGE_SIZE
        invariant
            i <= PAGE_SIZE,
            v@.len() == i,
            forall|k: int| 0 <= k < i ==> v@[k] == 0u8,
        decreases PAGE_SIZE - i,
    {
        v.push(0u8);
        i += 1;
    }
    proof {
        assert(v@ =~= zero_page());
    }
    v
}

} // verus!
