//! Logical memory regions of an address space.
//!
//! A `MapArea` is a contiguous page range, eagerly mapped: every page of the
//! range holds a mapping and (for framed areas) an owning frame handle. A
//! `ChunkArea` is a declared range whose pages are mapped one at a time on
//! demand (heap and mmap regions): only a sparse table of resident pages and
//! their owned frames exists.
use vstd::prelude::*;

use crate::address::{PhysPageNum, VirtAddr, VirtPageNum, VPNRange};
use crate::frame_allocator::{
    alloc_frame, dealloc_frame, zero_page, FrameTracker, StackFrameAllocator,
};
use crate::page_table::{PTEFlags, PageTable};

verus! {

/// How a region maps virtual pages to frames: `Identical` maps a page to
/// the equal physical page (kernel-space direct mapping) and owns nothing;
/// `Framed` backs every page with an allocated frame.
#[derive(Clone, Copy, Debug, PartialEq, Eq, Structural)]
pub enum MapType {
    Identical,
    Framed,
}

/// Permission set of a region.
#[derive(Clone, Copy, Debug, PartialEq, Eq, Structural)]
pub struct MapPermission {
    pub r: bool,
    pub w: bool,
    pub x: bool,
    pub u: bool,
}

impl MapPermission {
    pub fn new(r: bool, w: bool, x: bool, u: bool) -> (p: MapPermission)
        ensures
            p == (MapPermission { r, w, x, u }),
    {
        MapPermission { r, w, x, u }
    }

    /// Read + write + user: the permission of stacks, heaps and mmap areas.
    pub fn rwu() -> (p: MapPermission)
        ensures
            p == (MapPermission { r: true, w: true, x: false, u: true }),
    {
        MapPermission { r: true, w: true, x: false, u: true }
    }

    /// Read + write, supervisor only: trap context and kernel stacks.
    pub fn rw() -> (p: MapPermission)
        ensures
            p == (MapPermission { r: true, w: true, x: false, u: false }),
    {
        MapPermission { r: true, w: true, x: false, u: false }
    }

    /// The page-table flags a fresh mapping with this permission carries.
    pub fn pte_flags(&self) -> (f: PTEFlags)
        ensures
            f == perm_flags(*self),
    {
        PTEFlags { v: true, r: self.r, w: self.w, x: self.x, u: self.u, cow: false }
    }
}

/// The flags of a fresh, valid, non-copy-on-write mapping with
/// permission `p`.
pub open spec fn perm_flags(p: MapPermission) -> PTEFlags {
    PTEFlags { v: true, r: p.r, w: p.w, x: p.x, u: p.u, cow: false }
}

/// The page at offset `k` within the range of `r`.
pub open spec fn vpn_at(r: VPNRange, k: int) -> VirtPageNum {
    VirtPageNum((r.start.0 + k) as usize)
}

/// A contiguous region `[start, end)`, eagerly mapped page by page.
pub struct MapArea {
    pub vpn_range: VPNRange,
    pub map_type: MapType,
    pub map_perm: MapPermission,
    /// One owning handle per page of the range, in range order
    /// (framed areas only).
    pub data_frames: Vec<FrameTracker>,
}

impl MapArea {
    /// A new, not yet mapped area covering every page the byte range
    /// `[start_va, end_va)` touches.
    pub fn new(start_va: VirtAddr, end_va: VirtAddr, map_type: MapType, map_perm: MapPermission) -> (r:
        MapArea)
        ensures
            r.vpn_range.start.0 == start_va.0 / crate::consts::PAGE_SIZE,
            r.vpn_range.end.0 == crate::address::spec_page_ceil(end_va.0 as int),
            r.map_type == map_type,
            r.map_perm == map_perm,
            r.data_frames@.len() == 0,
    {
        MapArea {
            vpn_range: VPNRange::new(start_va.floor(), end_va.ceil()),
            map_type,
            map_perm,
            data_frames: Vec::new(),
        }
    }

    /// An area with the same bounds, type and permission as `another`, but
    /// owning no frames yet: the "clone shape, empty frame list"
    /// constructor of copy-on-write duplication.
    pub fn from_another(another: &MapArea) -> (r: MapArea)
        ensures
            r.vpn_range == another.vpn_range,
            r.map_type == another.map_type,
            r.map_perm == another.map_perm,
            r.data_frames@.len() == 0,
    {
        MapArea {
            vpn_range: another.vpn_range,
            map_type: another.map_type,
            map_perm: another.map_perm,
            data_frames: Vec::new(),
        }
    }

    /// The area's bookkeeping agrees with the page table: every page of the
    /// range is mapped, and for a framed area the `k`-th owned frame is the
    /// one page `start + k` maps to. Flags are not constrained here: the
    /// fault resolver toggles write and copy-on-write bits in place.
    pub open spec fn mapped_in(self, pt: PageTable) -> bool {
        &&& self.vpn_range.start.0 <= self.vpn_range.end.0
        &&& (self.map_type is Framed ==> {
            &&& self.data_frames@.len() == self.vpn_range.spec_len()
            &&& forall|k: int|
                0 <= k < self.vpn_range.spec_len() ==> pt.view().dom().contains(
                    #[trigger] vpn_at(self.vpn_range, k),
                ) && pt.view()[vpn_at(self.vpn_range, k)].ppn == self.data_frames@[k].ppn
        })
        &&& (self.map_type is Identical ==> {
            &&& self.data_frames@.len() == 0
            &&& forall|k: int|
                0 <= k < self.vpn_range.spec_len() ==> pt.view().dom().contains(
                    #[trigger] vpn_at(self.vpn_range, k),
                ) && pt.view()[vpn_at(self.vpn_range, k)].ppn.0 == vpn_at(self.vpn_range, k).0
        })
    }

    /// No two owned frames are the same physical page.
    pub open spec fn frames_distinct(self) -> bool {
        forall|i: int, j: int|
            0 <= i < j < self.data_frames@.len() ==> (#[trigger] self.data_frames@[i]).ppn
                != (#[trigger] self.data_frames@[j]).ppn
    }

    /// Every owned frame is live in the allocator.
    pub open spec fn counts_held(self, a: StackFrameAllocator) -> bool {
        forall|k: int|
            0 <= k < self.data_frames@.len() ==> a.count((#[trigger] self.data_frames@[k]).ppn)
                >= 1 && a.manages(self.data_frames@[k].ppn)
    }

    /// Map every page of the range, allocating one zeroed frame per page
    /// for a framed area.
    pub fn map(&mut self, pt: &mut PageTable, a: &mut StackFrameAllocator)
        requires
            old(self).vpn_range.start.0 <= old(self).vpn_range.end.0,
            old(self).data_frames@.len() == 0,
            old(pt).wf(),
            old(a).wf(),
            old(a).free_frames() >= 3 * old(self).vpn_range.spec_len(),
            forall|j: int|
                0 <= j < old(pt).node_ppns().len() ==> old(a).count(
                    #[trigger] old(pt).node_ppns()[j],
                ) >= 1,
        ensures
            final(self).vpn_range == old(self).vpn_range,
            final(self).map_type == old(self).map_type,
            final(self).map_perm == old(self).map_perm,
            final(self).mapped_in(*final(pt)),
            final(self).frames_distinct(),
            final(self).counts_held(*final(a)),
            final(pt).wf(),
            final(pt).spec_root() == old(pt).spec_root(),
            final(a).wf(),
            final(a).spec_base() == old(a).spec_base(),
            final(a).spec_end() == old(a).spec_end(),
            final(a).free_frames() >= old(a).free_frames() - 3 * old(self).vpn_range.spec_len(),
            forall|p: PhysPageNum| #[trigger] final(a).count(p) >= old(a).count(p),
            // the page table outside the range is untouched
            forall|v: VirtPageNum|
                !old(self).vpn_range.spec_contains(v) ==> #[trigger] final(pt).view().dom().contains(
                    v,
                ) == old(pt).view().dom().contains(v),
            forall|v: VirtPageNum|
                !old(self).vpn_range.spec_contains(v) && old(pt).view().dom().contains(v)
                    ==> #[trigger] final(pt).view()[v] == old(pt).view()[v],
            // every page of the range is now mapped with fresh flags
            forall|v: VirtPageNum|
                old(self).vpn_range.spec_contains(v) ==> #[trigger] final(pt).view().dom().contains(
                    v,
                ),
            forall|v: VirtPageNum|
                old(self).vpn_range.spec_contains(v) ==> (#[trigger] final(pt).view()[v]).flags
                    == perm_flags(old(self).map_perm),
            // frames live elsewhere are untouched, in count and contents
            forall|p: PhysPageNum|
                old(a).has_ref(p) ==> #[trigger] final(a).count(p) == old(a).count(p),
            forall|p: PhysPageNum|
                old(a).manages(p) && old(a).has_ref(p) ==> #[trigger] final(a).page(p) == old(
                    a,
                ).page(p),
            // a fresh framed page is zero-filled and solely owned
            old(self).map_type is Framed ==> forall|k: int|
                0 <= k < final(self).data_frames@.len() ==> final(a).count(
                    (#[trigger] final(self).data_frames@[k]).ppn,
                ) == 1 && !old(a).has_ref(final(self).data_frames@[k].ppn) && final(a).manages(
                    final(self).data_frames@[k].ppn,
                ) && final(a).page(final(self).data_frames@[k].ppn) == zero_page(),
            // the table's own frames: old ones kept, new ones fresh
            final(pt).node_ppns().len() >= old(pt).node_ppns().len(),
            forall|j: int|
                0 <= j < old(pt).node_ppns().len() ==> #[trigger] final(pt).node_ppns()[j] == old(
                    pt,
                ).node_ppns()[j],
            forall|j: int|
                old(pt).node_ppns().len() <= j < final(pt).node_ppns().len() ==> !old(a).has_ref(
                    #[trigger] final(pt).node_ppns()[j],
                ) && final(a).count(final(pt).node_ppns()[j]) == 1 && final(a).manages(final(pt).node_ppns()[j]),
            // a fresh intermediate-table frame is never a data frame
            forall|j: int, k: int|
                old(pt).node_ppns().len() <= j < final(pt).node_ppns().len() && 0 <= k < final(self).data_frames@.len() ==> #[trigger] final(pt).node_ppns()[j] != (#[trigger] final(self).data_frames@[k]).ppn,
    {
        let len = self.vpn_range.len();
        let start = self.vpn_range.get_start().0;
        let flags = self.map_perm.pte_flags();
        let mut k: usize = 0;
        while k < len
            invariant
                k <= len,
                len == self.vpn_range.spec_len(),
                start == self.vpn_range.start.0,
                flags == perm_flags(self.map_perm),
                self.vpn_range == old(self).vpn_range,
                self.map_type == old(self).map_type,
                self.map_perm == old(self).map_perm,
                pt.wf(),
                pt.spec_root() == old(pt).spec_root(),
                a.wf(),
                a.spec_base() == old(a).spec_base(),
                a.spec_end() == old(a).spec_end(),
                a.free_frames() >= old(a).free_frames() - 3 * k,
                old(a).free_frames() >= 3 * len,
                self.map_type is Framed ==> self.data_frames@.len() == k,
                self.map_type is Identical ==> self.data_frames@.len() == 0,
                self.map_type is Framed ==> forall|j: int|
                    0 <= j < k ==> pt.view().dom().contains(#[trigger] vpn_at(self.vpn_range, j))
                        && pt.view()[vpn_at(self.vpn_range, j)].ppn == self.data_frames@[j].ppn,
                self.map_type is Identical ==> forall|j: int|
                    0 <= j < k ==> pt.view().dom().contains(#[trigger] vpn_at(self.vpn_range, j))
                        && pt.view()[vpn_at(self.vpn_range, j)].ppn.0 == vpn_at(
                        self.vpn_range,
                        j,
                    ).0,
                forall|j: int|
                    0 <= j < k ==> (#[trigger] pt.view()[vpn_at(self.vpn_range, j)]).flags
                        == perm_flags(self.map_perm),
                forall|v: VirtPageNum|
                    !(self.vpn_range.start.0 <= v.0 < self.vpn_range.start.0 + k)
                        ==> #[trigger] pt.view().dom().contains(v) == old(
                        pt,
                    ).view().dom().contains(v),
                forall|v: VirtPageNum|
                    !(self.vpn_range.start.0 <= v.0 < self.vpn_range.start.0 + k) && old(
                        pt,
                    ).view().dom().contains(v) ==> #[trigger] pt.view()[v] == old(pt).view()[v],
                forall|p: PhysPageNum|
                    old(a).has_ref(p) ==> #[trigger] a.count(p) == old(a).count(p),
                forall|p: PhysPageNum|
                    old(a).manages(p) && old(a).has_ref(p) ==> #[trigger] a.page(p) == old(a).page(
                        p,
                    ),
                forall|j: int|
                    0 <= j < self.data_frames@.len() ==> a.count(
                        (#[trigger] self.data_frames@[j]).ppn,
                    ) == 1 && !old(a).has_ref(self.data_frames@[j].ppn) && a.page(
                        self.data_frames@[j].ppn,
                    ) == zero_page() && a.manages(self.data_frames@[j].ppn),
                self.frames_distinct(),
                pt.node_ppns().len() >= old(pt).node_ppns().len(),
                forall|j: int|
                    0 <= j < old(pt).node_ppns().len() ==> #[trigger] pt.node_ppns()[j] == old(
                        pt,
                    ).node_ppns()[j],
                forall|j: int|
                    old(pt).node_ppns().len() <= j < pt.node_ppns().len() ==> !old(a).has_ref(
                        #[trigger] pt.node_ppns()[j],
                    ) && a.count(pt.node_ppns()[j]) == 1 && a.manages(pt.node_ppns()[j]),
                forall|j: int|
                    0 <= j < pt.node_ppns().len() ==> a.count(#[trigger] pt.node_ppns()[j]) >= 1,
                forall|j: int, k2: int|
                    old(pt).node_ppns().len() <= j < pt.node_ppns().len() && 0 <= k2
                        < self.data_frames@.len() ==> #[trigger] pt.node_ppns()[j] != (
                    #[trigger] self.data_frames@[k2]).ppn,
            decreases len - k,
        {
            let vpn = VirtPageNum(start + k);
            let ghost pt0 = *pt;
            proof {
                assert(vpn_at(self.vpn_range, k as int) == vpn);
            }
            match self.map_type {
                MapType::Framed => {
                    let ghost a_pre_alloc = *a;
                    let frame = alloc_frame(a).unwrap();
                    let ppn = frame.ppn;
                    let ghost a_pre_map = *a;
                    let ghost nodes_pre = pt.node_ppns();
                    pt.map(vpn, ppn, flags, a);
                    self.data_frames.push(frame);
                    proof {
                        // frames allocated as table nodes here were free
                        // while every data frame, including this one, was
                        // already counted; older nodes were counted while
                        // this data frame was still free
                        assert(a_pre_map.count(ppn) == 1);
                        assert forall|j: int, k2: int|
                            old(pt).node_ppns().len() <= j < pt.node_ppns().len() && 0 <= k2
                                < self.data_frames@.len() implies #[trigger] pt.node_ppns()[j] != (
                        #[trigger] self.data_frames@[k2]).ppn by {
                            if j < nodes_pre.len() {
                                if k2 < self.data_frames@.len() - 1 {
                                } else {
                                    assert(!a_pre_alloc.has_ref(ppn));
                                    assert(a_pre_alloc.count(pt.node_ppns()[j]) >= 1);
                                }
                            } else {
                                assert(!a_pre_map.has_ref(pt.node_ppns()[j]));
                                assert(a_pre_map.count(self.data_frames@[k2].ppn) >= 1);
                            }
                        };
                    }
                },
                MapType::Identical => {
                    pt.map(vpn, PhysPageNum(start + k), flags, a);
                },
            }
            proof {
                assert(forall|v: VirtPageNum|
                    v != vpn ==> pt.view().dom().contains(v) == pt0.view().dom().contains(v));
                assert(forall|v: VirtPageNum|
                    v != vpn && pt0.view().dom().contains(v) ==> pt.view()[v] == pt0.view()[v]);
                assert(pt.view().dom().contains(vpn));
                assert(pt.view()[vpn].flags == perm_flags(self.map_perm));
            }
            k += 1;
        }
        proof {
            assert forall|v: VirtPageNum| old(self).vpn_range.spec_contains(v) implies {
                &&& pt.view().dom().contains(v)
                &&& pt.view()[v].flags == perm_flags(old(self).map_perm)
            } by {
                let j: int = v.0 - self.vpn_range.start.0;
                assert(vpn_at(self.vpn_range, j) == v);
                assert(pt.view().dom().contains(vpn_at(self.vpn_range, j)));
            };
        }
    }

    /// Unmap every page of the range and release the owned frames.
    pub fn unmap(&mut self, pt: &mut PageTable, a: &mut StackFrameAllocator)
        requires
            old(self).mapped_in(*old(pt)),
            old(self).frames_distinct(),
            old(self).counts_held(*old(a)),
            old(pt).wf(),
            old(a).wf(),
        ensures
            final(self).vpn_range == old(self).vpn_range,
            final(self).data_frames@.len() == 0,
            final(pt).wf(),
            final(pt).spec_root() == old(pt).spec_root(),
            final(pt).node_ppns() == old(pt).node_ppns(),
            final(a).wf(),
            final(a).spec_base() == old(a).spec_base(),
            final(a).spec_end() == old(a).spec_end(),
            // pages of the range are gone, the rest is untouched
            forall|v: VirtPageNum|
                old(self).vpn_range.spec_contains(v) ==> !final(pt).view().dom().contains(v),
            forall|v: VirtPageNum|
                !old(self).vpn_range.spec_contains(v) ==> #[trigger] final(pt).view().dom().contains(
                    v,
                ) == old(pt).view().dom().contains(v),
            forall|v: VirtPageNum|
                !old(self).vpn_range.spec_contains(v) && old(pt).view().dom().contains(v)
                    ==> #[trigger] final(pt).view()[v] == old(pt).view()[v],
            // each owned frame lost exactly one reference
            forall|k: int|
                0 <= k < old(self).data_frames@.len() ==> final(a).count(
                    (#[trigger] old(self).data_frames@[k]).ppn,
                ) == old(a).count(old(self).data_frames@[k].ppn) - 1,
            forall|p: PhysPageNum|
                (forall|k: int|
                    0 <= k < old(self).data_frames@.len() ==> (
                    #[trigger] old(self).data_frames@[k]).ppn != p) ==> #[trigger] final(a).count(p)
                    == old(a).count(p),
            forall|p: PhysPageNum|
                old(a).manages(p) ==> #[trigger] final(a).page(p) == old(a).page(p),
    {
        let len = self.vpn_range.len();
        let start = self.vpn_range.get_start().0;
        let mut k: usize = 0;
        while k < len
            invariant
                k <= len,
                len == self.vpn_range.spec_len(),
                start == self.vpn_range.start.0,
                *self == *old(self),
                self.mapped_in(*old(pt)),
                self.frames_distinct(),
                pt.wf(),
                pt.spec_root() == old(pt).spec_root(),
                pt.node_ppns() == old(pt).node_ppns(),
                forall|j: int|
                    k <= j < len ==> pt.view().dom().contains(#[trigger] vpn_at(self.vpn_range, j)),
                forall|j: int|
                    0 <= j < k ==> !pt.view().dom().contains(#[trigger] vpn_at(self.vpn_range, j)),
                forall|v: VirtPageNum|
                    !self.vpn_range.spec_contains(v) ==> #[trigger] pt.view().dom().contains(v)
                        == old(pt).view().dom().contains(v),
                forall|v: VirtPageNum|
                    !self.vpn_range.spec_contains(v) && old(pt).view().dom().contains(v)
                        ==> #[trigger] pt.view()[v] == old(pt).view()[v],
                a.wf(),
                a.spec_base() == old(a).spec_base(),
                a.spec_end() == old(a).spec_end(),
                self.map_type is Framed ==> forall|j: int|
                    0 <= j < k ==> a.count((#[trigger] self.data_frames@[j]).ppn) == old(a).count(
                        self.data_frames@[j].ppn,
                    ) - 1,
                self.map_type is Framed ==> forall|j: int|
                    k <= j < len ==> a.count((#[trigger] self.data_frames@[j]).ppn) == old(a).count(
                        self.data_frames@[j].ppn,
                    ) && a.count(self.data_frames@[j].ppn) >= 1,
                forall|p: PhysPageNum|
                    (forall|j: int|
                        0 <= j < self.data_frames@.len() ==> (#[trigger] self.data_frames@[j]).ppn
                            != p) ==> #[trigger] a.count(p) == old(a).count(p),
                forall|p: PhysPageNum|
                    old(a).manages(p) ==> #[trigger] a.page(p) == old(a).page(p),
            decreases len - k,
        {
            let vpn = VirtPageNum(start + k);
            let ghost pt0 = *pt;
            proof {
                assert(vpn_at(self.vpn_range, k as int) == vpn);
            }
            pt.unmap(vpn);
            proof {
                assert(forall|v: VirtPageNum|
                    v != vpn ==> pt.view().dom().contains(v) == pt0.view().dom().contains(v));
                assert(forall|v: VirtPageNum|
                    v != vpn && pt0.view().dom().contains(v) ==> pt.view()[v] == pt0.view()[v]);
                assert(!pt.view().dom().contains(vpn));
            }
            match self.map_type {
                MapType::Framed => {
                    let ppn = self.data_frames[k].ppn;
                    dealloc_frame(a, ppn);
                },
                MapType::Identical => {},
            }
            k += 1;
        }
        proof {
            assert forall|v: VirtPageNum|
                old(self).vpn_range.spec_contains(v) implies !pt.view().dom().contains(v) by {
                let j: int = v.0 - self.vpn_range.start.0;
                assert(vpn_at(self.vpn_range, j) == v);
                assert(!pt.view().dom().contains(vpn_at(self.vpn_range, j)));
            };
        }
        self.data_frames = Vec::new();
    }
}

} // verus!

use vstd::prelude::*;

verus! {

/// A declared region `[start, end)` whose pages are mapped one at a time on
/// demand: the heap, or one mmap region. Only the pages in `vpn_table` are
/// resident; `data_frames[k]` owns the frame behind `vpn_table[k]`.
pub struct ChunkArea {
    pub vpn_range: VPNRange,
    pub map_type: MapType,
    pub map_perm: MapPermission,
    /// The resident pages, in the order they were faulted in.
    pub vpn_table: Vec<VirtPageNum>,
    /// One owning handle per resident page, same order as `vpn_table`.
    pub data_frames: Vec<FrameTracker>,
}

impl ChunkArea {
    /// Declare a chunk over the byte range `[start_va, end_va)` with no
    /// resident page.
    pub fn new(map_type: MapType, map_perm: MapPermission, start_va: VirtAddr, end_va: VirtAddr) -> (r:
        ChunkArea)
        ensures
            r.vpn_range.start.0 == start_va.0 / crate::consts::PAGE_SIZE,
            r.vpn_range.end.0 == crate::address::spec_page_ceil(end_va.0 as int),
            r.map_type == map_type,
            r.map_perm == map_perm,
            r.vpn_table@.len() == 0,
            r.data_frames@.len() == 0,
    {
        ChunkArea {
            vpn_range: VPNRange::new(start_va.floor(), end_va.ceil()),
            map_type,
            map_perm,
            vpn_table: Vec::new(),
            data_frames: Vec::new(),
        }
    }

    /// A chunk with the same bounds, type and permission as `another`, but
    /// with no resident page: the "clone shape, empty frame list"
    /// constructor of copy-on-write duplication.
    pub fn from_another(another: &ChunkArea) -> (r: ChunkArea)
        ensures
            r.vpn_range == another.vpn_range,
            r.map_type == another.map_type,
            r.map_perm == another.map_perm,
            r.vpn_table@.len() == 0,
            r.data_frames@.len() == 0,
    {
        ChunkArea {
            vpn_range: another.vpn_range,
            map_type: another.map_type,
            map_perm: another.map_perm,
            vpn_table: Vec::new(),
            data_frames: Vec::new(),
        }
    }

    /// Whether `v` is a resident page of this chunk.
    pub open spec fn resident(self, v: VirtPageNum) -> bool {
        exists|k: int| 0 <= k < self.vpn_table@.len() && self.vpn_table@[k] == v
    }

    /// The chunk's bookkeeping agrees with the page table: resident pages
    /// are distinct, lie in the declared range, are mapped, and the `k`-th
    /// owned frame is the one `vpn_table[k]` maps to.
    pub open spec fn mapped_in(self, pt: PageTable) -> bool {
        &&& self.vpn_range.start.0 <= self.vpn_range.end.0
        &&& self.data_frames@.len() == self.vpn_table@.len()
        &&& forall|i: int, j: int|
            0 <= i < j < self.vpn_table@.len() ==> #[trigger] self.vpn_table@[i]
                != #[trigger] self.vpn_table@[j]
        &&& forall|k: int|
            0 <= k < self.vpn_table@.len() ==> self.vpn_range.spec_contains(
                #[trigger] self.vpn_table@[k],
            )
        &&& forall|k: int|
            0 <= k < self.vpn_table@.len() ==> pt.view().dom().contains(
                #[trigger] self.vpn_table@[k],
            ) && pt.view()[self.vpn_table@[k]].ppn == self.data_frames@[k].ppn
    }

    /// No two owned frames are the same physical page.
    pub open spec fn frames_distinct(self) -> bool {
        forall|i: int, j: int|
            0 <= i < j < self.data_frames@.len() ==> (#[trigger] self.data_frames@[i]).ppn
                != (#[trigger] self.data_frames@[j]).ppn
    }

    /// Every owned frame is live in the allocator.
    pub open spec fn counts_held(self, a: StackFrameAllocator) -> bool {
        forall|k: int|
            0 <= k < self.data_frames@.len() ==> a.count((#[trigger] self.data_frames@[k]).ppn)
                >= 1 && a.manages(self.data_frames@[k].ppn)
    }

    /// Lazily map exactly one page of the chunk: allocate one zeroed frame,
    /// install the mapping with the chunk's permission, and record the page
    /// as resident.
    pub fn push_vpn(&mut self, vpn: VirtPageNum, pt: &mut PageTable, a: &mut StackFrameAllocator)
        requires
            old(self).mapped_in(*old(pt)),
            old(self).frames_distinct(),
            old(self).counts_held(*old(a)),
            old(self).vpn_range.spec_contains(vpn),
            !old(pt).view().dom().contains(vpn),
            old(pt).wf(),
            old(a).wf(),
            old(a).free_frames() >= 3,
            forall|j: int|
                0 <= j < old(pt).node_ppns().len() ==> old(a).count(
                    #[trigger] old(pt).node_ppns()[j],
                ) >= 1,
        ensures
            final(self).vpn_range == old(self).vpn_range,
            final(self).map_type == old(self).map_type,
            final(self).map_perm == old(self).map_perm,
            final(self).vpn_table@ == old(self).vpn_table@.push(vpn),
            final(self).mapped_in(*final(pt)),
            final(self).frames_distinct(),
            final(self).counts_held(*final(a)),
            final(pt).wf(),
            final(pt).spec_root() == old(pt).spec_root(),
            final(a).wf(),
            final(a).spec_base() == old(a).spec_base(),
            final(a).spec_end() == old(a).spec_end(),
            final(a).free_frames() >= old(a).free_frames() - 3,
            forall|p: PhysPageNum| #[trigger] final(a).count(p) >= old(a).count(p),
            // the new page is mapped with the chunk's fresh flags, on a
            // zeroed frame of its own
            final(pt).view().dom().contains(vpn),
            final(pt).view()[vpn].flags == perm_flags(old(self).map_perm),
            final(pt).view()[vpn].ppn == final(self).data_frames@.last().ppn,
            final(a).count(final(pt).view()[vpn].ppn) == 1,
            !old(a).has_ref(final(pt).view()[vpn].ppn),
            final(a).manages(final(pt).view()[vpn].ppn),
            final(a).page(final(pt).view()[vpn].ppn) == zero_page(),
            // everything else is untouched
            forall|v: VirtPageNum|
                v != vpn ==> #[trigger] final(pt).view().dom().contains(v) == old(
                    pt,
                ).view().dom().contains(v),
            forall|v: VirtPageNum|
                v != vpn && old(pt).view().dom().contains(v) ==> #[trigger] final(pt).view()[v]
                    == old(pt).view()[v],
            forall|p: PhysPageNum|
                old(a).has_ref(p) ==> #[trigger] final(a).count(p) == old(a).count(p),
            forall|p: PhysPageNum|
                old(a).manages(p) && old(a).has_ref(p) ==> #[trigger] final(a).page(p) == old(
                    a,
                ).page(p),
            final(pt).node_ppns().len() >= old(pt).node_ppns().len(),
            forall|j: int|
                0 <= j < old(pt).node_ppns().len() ==> #[trigger] final(pt).node_ppns()[j] == old(
                    pt,
                ).node_ppns()[j],
            forall|j: int|
                old(pt).node_ppns().len() <= j < final(pt).node_ppns().len() ==> !old(a).has_ref(
                    #[trigger] final(pt).node_ppns()[j],
                ) && final(a).count(final(pt).node_ppns()[j]) == 1 && final(a).manages(final(pt).node_ppns()[j]),
            // a fresh intermediate-table frame is never the new data frame
            forall|j: int|
                old(pt).node_ppns().len() <= j < final(pt).node_ppns().len()
                    ==> #[trigger] final(pt).node_ppns()[j] != final(pt).view()[vpn].ppn,
    {
        let frame = alloc_frame(a).unwrap();
        let ppn = frame.ppn;
        let flags = self.map_perm.pte_flags();
        let ghost a_pre_map = *a;
        pt.map(vpn, ppn, flags, a);
        proof {
            assert(a_pre_map.count(ppn) == 1);
            assert forall|j: int|
                old(pt).node_ppns().len() <= j < pt.node_ppns().len() implies #[trigger] pt.node_ppns()[j]
                    != ppn by {
                assert(!a_pre_map.has_ref(pt.node_ppns()[j]));
            };
        }
        proof {
            assert(forall|k: int|
                0 <= k < self.vpn_table@.len() ==> #[trigger] self.vpn_table@[k] != vpn);
        }
        self.vpn_table.push(vpn);
        self.data_frames.push(frame);
    }

    /// Unmap every resident page of the chunk and release its frames.
    pub fn unmap(&mut self, pt: &mut PageTable, a: &mut StackFrameAllocator)
        requires
            old(self).mapped_in(*old(pt)),
            old(self).frames_distinct(),
            old(self).counts_held(*old(a)),
            old(pt).wf(),
            old(a).wf(),
        ensures
            final(self).vpn_range == old(self).vpn_range,
            final(self).vpn_table@.len() == 0,
            final(self).data_frames@.len() == 0,
            final(pt).wf(),
            final(pt).spec_root() == old(pt).spec_root(),
            final(pt).node_ppns() == old(pt).node_ppns(),
            final(a).wf(),
            final(a).spec_base() == old(a).spec_base(),
            final(a).spec_end() == old(a).spec_end(),
            // resident pages are gone, the rest is untouched
            forall|k: int|
                0 <= k < old(self).vpn_table@.len() ==> !final(pt).view().dom().contains(
                    #[trigger] old(self).vpn_table@[k],
                ),
            forall|v: VirtPageNum|
                !old(self).resident(v) ==> #[trigger] final(pt).view().dom().contains(v) == old(
                    pt,
                ).view().dom().contains(v),
            forall|v: VirtPageNum|
                !old(self).resident(v) && old(pt).view().dom().contains(v)
                    ==> #[trigger] final(pt).view()[v] == old(pt).view()[v],
            // each owned frame lost exactly one reference
            forall|k: int|
                0 <= k < old(self).data_frames@.len() ==> final(a).count(
                    (#[trigger] old(self).data_frames@[k]).ppn,
                ) == old(a).count(old(self).data_frames@[k].ppn) - 1,
            forall|p: PhysPageNum|
                (forall|k: int|
                    0 <= k < old(self).data_frames@.len() ==> (
                    #[trigger] old(self).data_frames@[k]).ppn != p) ==> #[trigger] final(a).count(p)
                    == old(a).count(p),
            forall|p: PhysPageNum|
                old(a).manages(p) ==> #[trigger] final(a).page(p) == old(a).page(p),
    {
        let len = self.vpn_table.len();
        let mut k: usize = 0;
        while k < len
            invariant
                k <= len,
                len == self.vpn_table@.len(),
                *self == *old(self),
                self.mapped_in(*old(pt)),
                self.frames_distinct(),
                pt.wf(),
                pt.spec_root() == old(pt).spec_root(),
                pt.node_ppns() == old(pt).node_ppns(),
                forall|j: int|
                    k <= j < len ==> pt.view().dom().contains(#[trigger] self.vpn_table@[j]),
                forall|j: int|
                    0 <= j < k ==> !pt.view().dom().contains(#[trigger] self.vpn_table@[j]),
                forall|j: int|
                    k <= j < len ==> (#[trigger] pt.view()[self.vpn_table@[j]]).ppn
                        == self.data_frames@[j].ppn,
                forall|v: VirtPageNum|
                    !self.resident(v) ==> #[trigger] pt.view().dom().contains(v) == old(
                        pt,
                    ).view().dom().contains(v),
                forall|v: VirtPageNum|
                    !self.resident(v) && old(pt).view().dom().contains(v) ==> #[trigger] pt.view()[v]
                        == old(pt).view()[v],
                a.wf(),
                a.spec_base() == old(a).spec_base(),
                a.spec_end() == old(a).spec_end(),
                forall|j: int|
                    0 <= j < k ==> a.count((#[trigger] self.data_frames@[j]).ppn) == old(a).count(
                        self.data_frames@[j].ppn,
                    ) - 1,
                forall|j: int|
                    k <= j < len ==> a.count((#[trigger] self.data_frames@[j]).ppn) == old(a).count(
                        self.data_frames@[j].ppn,
                    ) && a.count(self.data_frames@[j].ppn) >= 1,
                forall|p: PhysPageNum|
                    (forall|j: int|
                        0 <= j < self.data_frames@.len() ==> (#[trigger] self.data_frames@[j]).ppn
                            != p) ==> #[trigger] a.count(p) == old(a).count(p),
                forall|p: PhysPageNum|
                    old(a).manages(p) ==> #[trigger] a.page(p) == old(a).page(p),
            decreases len - k,
        {
            let vpn = self.vpn_table[k];
            pt.unmap(vpn);
            let ppn = self.data_frames[k].ppn;
            dealloc_frame(a, ppn);
            k += 1;
        }
        self.vpn_table = Vec::new();
        self.data_frames = Vec::new();
    }
}

} // verus!

verus! {

impl MapArea {
    /// Byte `pos` of the area's backing frames: `pos` counts from the first
    /// byte of the first page of the range.
    pub open spec fn byte_at(self, a: StackFrameAllocator, pos: int) -> u8 {
        a.page(self.data_frames@[pos / (crate::consts::PAGE_SIZE as int)].ppn)[pos % (
        crate::consts::PAGE_SIZE as int)]
    }

    /// Copy `data[offset .. offset + len]` into the area's frames, starting
    /// `page_offset` bytes into its first page: the preload path used to
    /// fill a fresh area from an ELF segment's file image. Every byte
    /// outside the written window keeps its value.
    pub fn copy_data(
        &self,
        a: &mut StackFrameAllocator,
        data: &Vec<u8>,
        offset: usize,
        len: usize,
        page_offset: usize,
    )
        requires
            self.map_type is Framed,
            self.data_frames@.len() == self.vpn_range.spec_len(),
            self.frames_distinct(),
            self.counts_held(*old(a)),
            old(a).wf(),
            offset + len <= data@.len(),
            page_offset < crate::consts::PAGE_SIZE,
            page_offset + len <= self.vpn_range.spec_len() * crate::consts::PAGE_SIZE,
        ensures
            final(a).wf(),
            final(a).spec_base() == old(a).spec_base(),
            final(a).spec_end() == old(a).spec_end(),
            final(a).free_frames() == old(a).free_frames(),
            final(a).spec_next_free() == old(a).spec_next_free(),
            forall|p: PhysPageNum| #[trigger] final(a).count(p) == old(a).count(p),
            // the written window holds the source bytes
            forall|pos: int|
                0 <= pos < len ==> #[trigger] self.byte_at(*final(a), page_offset + pos)
                    == data@[offset + pos],
            // every other byte of the area is untouched
            forall|pos: int|
                0 <= pos < self.vpn_range.spec_len() * crate::consts::PAGE_SIZE && !(page_offset
                    <= pos < page_offset + len) ==> self.byte_at(*final(a), pos) == self.byte_at(
                    *old(a),
                    pos,
                ),
            // frames of other owners are untouched
            forall|p: PhysPageNum|
                old(a).manages(p) && (forall|k: int|
                    0 <= k < self.data_frames@.len() ==> (#[trigger] self.data_frames@[k]).ppn
                        != p) ==> #[trigger] final(a).page(p) == old(a).page(p),
    {
        let page_size = crate::consts::PAGE_SIZE;
        let data_len = data.len();
        let mut i: usize = 0;
        let mut cur_page: usize = 0;
        let mut cur_off: usize = page_offset;
        while i < len
            invariant
                i <= len,
                cur_off < page_size,
                page_size == crate::consts::PAGE_SIZE,
                page_offset + i == cur_page * page_size + cur_off,
                offset + len <= data@.len(),
                data_len == data@.len(),
                page_offset < page_size,
                page_offset + len <= self.vpn_range.spec_len() * page_size,
                self.map_type is Framed,
                self.data_frames@.len() == self.vpn_range.spec_len(),
                self.frames_distinct(),
                self.counts_held(*a),
                a.wf(),
                a.spec_base() == old(a).spec_base(),
                a.spec_end() == old(a).spec_end(),
                a.free_frames() == old(a).free_frames(),
                a.spec_next_free() == old(a).spec_next_free(),
                forall|p: PhysPageNum| #[trigger] a.count(p) == old(a).count(p),
                forall|pos: int|
                    0 <= pos < i ==> #[trigger] self.byte_at(*a, page_offset + pos) == data@[offset
                        + pos],
                forall|pos: int|
                    0 <= pos < self.vpn_range.spec_len() * page_size && !(page_offset <= pos
                        < page_offset + i) ==> self.byte_at(*a, pos) == self.byte_at(*old(a), pos),
                forall|p: PhysPageNum|
                    old(a).manages(p) && (forall|k: int|
                        0 <= k < self.data_frames@.len() ==> (#[trigger] self.data_frames@[k]).ppn
                            != p) ==> #[trigger] a.page(p) == old(a).page(p),
            decreases len - i,
        {
            proof {
                vstd::arithmetic::div_mod::lemma_fundamental_div_mod_converse(
                    page_offset + i,
                    page_size as int,
                    cur_page as int,
                    cur_off as int,
                );
                assert(cur_page < self.vpn_range.spec_len());
            }
            let ppn = self.data_frames[cur_page].ppn;
            let b = data[offset + i];
            let ghost a_prev = *a;
            crate::frame_allocator::write_byte(a, ppn, cur_off, b);
            proof {
                crate::frame_allocator::lemma_page_len(a_prev, ppn);
                assert(self.byte_at(*a, page_offset + i) == b);
                assert forall|pos: int| #![trigger self.byte_at(*a, pos)]
                    0 <= pos < self.vpn_range.spec_len() * page_size && pos != page_offset
                        + i implies self.byte_at(*a, pos) == self.byte_at(a_prev, pos) by {
                    let l = self.vpn_range.spec_len();
                    let ps = page_size as int;
                    let p2 = pos / ps;
                    let o2 = pos % ps;
                    vstd::arithmetic::div_mod::lemma_fundamental_div_mod(pos, ps);
                    vstd::arithmetic::div_mod::lemma_mod_bound(pos, ps);
                    assert(0 <= p2 < l) by (nonlinear_arith)
                        requires
                            pos == ps * p2 + o2,
                            0 <= o2 < ps,
                            0 <= pos < l * ps,
                            ps > 0,
                    ;
                    if p2 == cur_page as int {
                        assert(o2 != cur_off as int) by {
                            vstd::arithmetic::div_mod::lemma_fundamental_div_mod_converse(
                                page_offset + i,
                                ps,
                                cur_page as int,
                                cur_off as int,
                            );
                        };
                    } else {
                        if p2 < cur_page as int {
                            assert(self.data_frames@[p2].ppn != self.data_frames@[cur_page as int].ppn);
                        } else {
                            assert(self.data_frames@[cur_page as int].ppn != self.data_frames@[p2].ppn);
                        }
                    }
                };
            }
            i += 1;
            cur_off += 1;
            if cur_off == page_size {
                cur_off = 0;
                cur_page += 1;
            }
        }
    }
}

} // verus!
