//! The address-space manager.
//!
//! A `MemorySet` owns one page table, an ordered list of contiguous mapped
//! regions (`MapArea`), a list of sparse mmap regions (`ChunkArea`), one
//! designated heap chunk, and the `brk`/`brk_start` markers. Its invariant
//! ties all of them together: every region's bookkeeping agrees with the
//! page table, no two regions claim the same page, no two owned pages share
//! a frame, a copy-on-write mark appears only on owned pages, and every
//! owned frame is live in the allocator.
use vstd::prelude::*;

use crate::address::{ranges_disjoint, PhysPageNum, VirtAddr, VirtPageNum, VPNRange};
use crate::area::{perm_flags, vpn_at, ChunkArea, MapArea, MapPermission, MapType};
use crate::consts::{PAGE_SIZE, TRAMPOLINE, TRAP_CONTEXT, USER_HEAP_SIZE, USER_STACK_SIZE};
use crate::frame_allocator::{
    alloc_frame, copy_page, dealloc_frame, enquire_refcount, frame_add_ref, free_frame_count,
    read_byte, zero_page, FrameTracker, StackFrameAllocator,
};
use crate::page_table::{PTEFlags, PageTable, PageTableEntry};

verus! {

/// The region that owns a faulting page, and the slot of its handle:
/// a contiguous region (frames indexed by range offset), an mmap region
/// (region and resident-table index), or the heap (resident-table index).
enum OwnerSlot {
    VmArea(usize),
    MmapArea(usize, usize),
    Heap(usize),
}

/// One user address space.
pub struct MemorySet {
    pub page_table: PageTable,
    /// Contiguous, eagerly mapped regions: code, data, stack, trap context.
    pub vm_areas: Vec<MapArea>,
    /// Sparse mmap regions, lazily populated.
    pub mmap_areas: Vec<ChunkArea>,
    /// The heap: one sparse region, lazily populated, bounded by `brk`.
    pub heap_areas: ChunkArea,
    /// First byte of the heap.
    pub brk_start: usize,
    /// Current end-of-heap boundary.
    pub brk: usize,
}

impl MemorySet {
    /// The mapping of the owned page table.
    pub open spec fn pt(self) -> Map<VirtPageNum, PageTableEntry> {
        self.page_table.view()
    }

    /// Byte `off` of the frame that page `v` maps to.
    pub open spec fn mem_byte(self, a: StackFrameAllocator, v: VirtPageNum, off: int) -> u8 {
        a.page(self.pt()[v].ppn)[off]
    }

    /// Ranges of the contiguous regions, in insertion order.
    pub open spec fn vm_ranges(self) -> Seq<VPNRange> {
        self.vm_areas@.map(|i: int, m: MapArea| m.vpn_range)
    }

    /// Declared ranges of the mmap regions, in insertion order.
    pub open spec fn mmap_ranges(self) -> Seq<VPNRange> {
        self.mmap_areas@.map(|i: int, c: ChunkArea| c.vpn_range)
    }

    /// Declared range of the heap.
    pub open spec fn heap_range(self) -> VPNRange {
        self.heap_areas.vpn_range
    }

    /// Whether `v` is resident in the `i`-th mmap region.
    pub open spec fn mmap_resident(self, i: int, v: VirtPageNum) -> bool {
        self.mmap_areas@[i].resident(v)
    }

    /// Whether `v` is a resident heap page.
    pub open spec fn heap_resident(self, v: VirtPageNum) -> bool {
        self.heap_areas.resident(v)
    }

    /// Whether some region of this address space owns the mapped page `v`:
    /// a page of a contiguous region, or a resident page of an mmap region
    /// or of the heap.
    pub open spec fn owned_vpn(self, v: VirtPageNum) -> bool {
        ||| exists|i: int|
            0 <= i < self.vm_areas@.len() && (#[trigger] self.vm_areas@[i]).map_type is Framed
                && self.vm_areas@[i].vpn_range.spec_contains(v)
        ||| exists|i: int| 0 <= i < self.mmap_areas@.len() && (#[trigger] self.mmap_areas@[i]).resident(v)
        ||| self.heap_areas.resident(v)
    }

    /// Every range of the space: contiguous regions, mmap regions, heap.
    pub open spec fn all_ranges(self) -> Seq<VPNRange> {
        self.vm_ranges() + self.mmap_ranges() + seq![self.heap_range()]
    }

    /// The structural invariant of an address space.
    pub open spec fn wf(self) -> bool {
        self.wf_core(VPNRange { start: VirtPageNum(0), end: VirtPageNum(0) })
    }

    /// The invariant with one indulgence: pages of `extra` may carry a
    /// copy-on-write mark without an owner yet: the window in which a
    /// region's pages are mapped before the region itself is recorded.
    pub open spec fn wf_core(self, extra: VPNRange) -> bool {
        &&& self.page_table.wf()
        &&& forall|i: int|
            0 <= i < self.vm_areas@.len() ==> (#[trigger] self.vm_areas@[i]).mapped_in(
                self.page_table,
            ) && self.vm_areas@[i].frames_distinct()
        &&& forall|i: int|
            0 <= i < self.mmap_areas@.len() ==> (#[trigger] self.mmap_areas@[i]).mapped_in(
                self.page_table,
            ) && self.mmap_areas@[i].frames_distinct() && self.mmap_areas@[i].map_type is Framed
        &&& self.heap_areas.mapped_in(self.page_table)
        &&& self.heap_areas.frames_distinct()
        &&& self.heap_areas.map_type is Framed
        // a mapped page belongs to at most one region
        &&& forall|i: int, j: int|
            0 <= i < j < self.all_ranges().len() ==> ranges_disjoint(
                #[trigger] self.all_ranges()[i],
                #[trigger] self.all_ranges()[j],
            )
        // a copy-on-write mark appears only on owned pages
        &&& forall|v: VirtPageNum|
            self.pt().dom().contains(v) && (#[trigger] self.pt()[v]).flags.cow ==> self.owned_vpn(
                v,
            ) || extra.spec_contains(v)
        // the page table's own frames never double as data frames
        &&& forall|j: int, v: VirtPageNum|
            0 <= j < self.page_table.node_ppns().len() && self.owned_vpn(v)
                ==> #[trigger] self.page_table.node_ppns()[j] != (#[trigger] self.pt()[v]).ppn
        // no two owned pages share a frame
        &&& forall|v1: VirtPageNum, v2: VirtPageNum|
            self.owned_vpn(v1) && self.owned_vpn(v2) && v1 != v2 ==> (#[trigger] self.pt()[v1]).ppn
                != (#[trigger] self.pt()[v2]).ppn
        // the heap boundary stays within the declared heap
        &&& self.heap_range().end.0 <= crate::consts::MAX_VPN
        &&& self.brk_start == self.heap_range().start.0 * PAGE_SIZE
        &&& self.brk_start <= self.brk <= self.heap_range().end.0 * PAGE_SIZE
    }

    /// Every frame owned by a region, and every frame of the page table
    /// itself, is live in the allocator.
    pub open spec fn counts_held(self, a: StackFrameAllocator) -> bool {
        &&& forall|i: int|
            0 <= i < self.vm_areas@.len() ==> (#[trigger] self.vm_areas@[i]).counts_held(a)
        &&& forall|i: int|
            0 <= i < self.mmap_areas@.len() ==> (#[trigger] self.mmap_areas@[i]).counts_held(a)
        &&& self.heap_areas.counts_held(a)
        &&& forall|j: int|
            0 <= j < self.page_table.node_ppns().len() ==> a.count(
                #[trigger] self.page_table.node_ppns()[j],
            ) >= 1 && a.manages(self.page_table.node_ppns()[j])
    }

    /// A new, empty address space: an empty page table, no regions, and a
    /// zero heap.
    pub fn new_bare(a: &mut StackFrameAllocator) -> (r: MemorySet)
        requires
            old(a).wf(),
            old(a).free_frames() >= 1,
        ensures
            r.wf(),
            r.counts_held(*final(a)),
            r.pt() == Map::<VirtPageNum, PageTableEntry>::empty(),
            r.vm_ranges().len() == 0,
            r.mmap_ranges().len() == 0,
            r.heap_range() == (VPNRange { start: VirtPageNum(0), end: VirtPageNum(0) }),
            r.vm_areas@.len() == 0,
            r.mmap_areas@.len() == 0,
            r.heap_areas.vpn_table@.len() == 0,
            r.brk_start == 0 && r.brk == 0,
            final(a).wf(),
            final(a).spec_base() == old(a).spec_base(),
            final(a).spec_end() == old(a).spec_end(),
            final(a).free_frames() == old(a).free_frames() - 1,
            forall|p: PhysPageNum|
                old(a).has_ref(p) ==> #[trigger] final(a).count(p) == old(a).count(p),
            forall|p: PhysPageNum| #[trigger] final(a).count(p) >= old(a).count(p),
            forall|p: PhysPageNum|
                p != r.page_table.spec_root() ==> #[trigger] final(a).count(p) == old(a).count(p),
            r.page_table.node_ppns().len() == 1,
            r.page_table.node_ppns()[0] == r.page_table.spec_root(),
            !old(a).has_ref(r.page_table.spec_root()),
            final(a).count(r.page_table.spec_root()) == 1,
            final(a).manages(r.page_table.spec_root()),
            forall|p: PhysPageNum|
                old(a).manages(p) && old(a).has_ref(p) ==> #[trigger] final(a).page(p) == old(a).page(p),
    {
        let page_table = PageTable::new(a);
        MemorySet {
            page_table,
            vm_areas: Vec::new(),
            mmap_areas: Vec::new(),
            heap_areas: ChunkArea::new(
                MapType::Framed,
                MapPermission::rwu(),
                VirtAddr(0),
                VirtAddr(0),
            ),
            brk_start: 0,
            brk: 0,
        }
    }

    /// The token of this space's page table, for the hardware translation
    /// root.
    pub fn token(&self) -> (r: usize)
        ensures
            r == self.page_table.spec_root().0,
    {
        self.page_table.token()
    }

    /// Look a page up in this space's page table.
    pub fn translate(&self, vpn: VirtPageNum) -> (r: Option<PageTableEntry>)
        requires
            self.wf(),
        ensures
            r == self.page_table.spec_translate(vpn),
    {
        self.page_table.translate(vpn)
    }

    /// Declare an empty sparse region for `mmap`: bounds and permission
    /// are fixed, no page is mapped yet.
    pub fn insert_mmap_area(
        &mut self,
        start_va: VirtAddr,
        end_va: VirtAddr,
        permission: MapPermission,
    )
        requires
            old(self).wf(),
            start_va.0 <= end_va.0,
            // the new region must not overlap any declared region
            forall|i: int|
                0 <= i < old(self).all_ranges().len() ==> ranges_disjoint(
                    #[trigger] old(self).all_ranges()[i],
                    VPNRange {
                        start: VirtPageNum(start_va.0 / PAGE_SIZE),
                        end: VirtPageNum(crate::address::spec_page_ceil(end_va.0 as int) as usize),
                    },
                ),
        ensures
            final(self).wf(),
            final(self).pt() == old(self).pt(),
            final(self).vm_ranges() == old(self).vm_ranges(),
            final(self).heap_range() == old(self).heap_range(),
            final(self).brk == old(self).brk && final(self).brk_start == old(self).brk_start,
            final(self).mmap_ranges() == old(self).mmap_ranges().push(
                VPNRange {
                    start: VirtPageNum(start_va.0 / PAGE_SIZE),
                    end: VirtPageNum(crate::address::spec_page_ceil(end_va.0 as int) as usize),
                },
            ),
            forall|v: VirtPageNum| final(self).owned_vpn(v) == old(self).owned_vpn(v),
            forall|a0: StackFrameAllocator| old(self).counts_held(a0) ==> final(self).counts_held(a0),
            // the declared region starts with no resident page
            final(self).mmap_areas@.len() == old(self).mmap_areas@.len() + 1,
            forall|j: int|
                0 <= j < old(self).mmap_areas@.len() ==> #[trigger] final(self).mmap_areas@[j]
                    == old(self).mmap_areas@[j],
            final(self).mmap_areas@.last().vpn_table@.len() == 0,
            final(self).mmap_areas@.last().map_perm == permission,
    {
        let new_chunk_area = ChunkArea::new(MapType::Framed, permission, start_va, end_va);
        self.mmap_areas.push(new_chunk_area);
        proof {
            assert(final(self).mmap_ranges() =~= old(self).mmap_ranges().push(
                new_chunk_area.vpn_range,
            ));
            assert(final(self).all_ranges().len() == old(self).all_ranges().len() + 1);
            assert(forall|i: int|
                0 <= i < old(self).all_ranges().len() + 1 ==> #[trigger] final(self).all_ranges()[i]
                    == if i < old(self).vm_areas@.len() {
                    old(self).all_ranges()[i]
                } else if i < old(self).vm_areas@.len() + old(self).mmap_areas@.len() {
                    old(self).all_ranges()[i]
                } else if i == old(self).vm_areas@.len() + old(self).mmap_areas@.len() {
                    new_chunk_area.vpn_range
                } else {
                    old(self).heap_range()
                });
            assert forall|v: VirtPageNum| final(self).owned_vpn(v) == old(self).owned_vpn(v) by {
                assert(!new_chunk_area.resident(v));
                if exists|i: int|
                    0 <= i < old(self).mmap_areas@.len() && (
                    #[trigger] old(self).mmap_areas@[i]).resident(v) {
                    let i = choose|i: int|
                        0 <= i < old(self).mmap_areas@.len() && (
                        #[trigger] old(self).mmap_areas@[i]).resident(v);
                    assert(self.mmap_areas@[i].resident(v));
                }
                if exists|i: int|
                    0 <= i < self.mmap_areas@.len() && (#[trigger] self.mmap_areas@[i]).resident(
                    v) {
                    let i = choose|i: int|
                        0 <= i < self.mmap_areas@.len() && (#[trigger] self.mmap_areas@[i]).resident(
                        v);
                    if i < old(self).mmap_areas@.len() {
                        assert(old(self).mmap_areas@[i].resident(v));
                    }
                }
            };
            assert(self.pt() == old(self).pt());
            let ghost nr = new_chunk_area.vpn_range;
            let ghost n_old = old(self).all_ranges().len();
            assert forall|i: int, j: int|
                0 <= i < j < self.all_ranges().len() implies ranges_disjoint(
                #[trigger] self.all_ranges()[i],
                #[trigger] self.all_ranges()[j],
            ) by {
                let nvm = old(self).vm_areas@.len() as int;
                let nmm = old(self).mmap_areas@.len() as int;
                if j == nvm + nmm {
                    // the new chunk against an older range: the
                    // precondition
                    assert(self.all_ranges()[i] == old(self).all_ranges()[i]);
                    assert(ranges_disjoint(old(self).all_ranges()[i], nr));
                } else if i == nvm + nmm {
                    // the new chunk against the heap, which moved one slot
                    assert(self.all_ranges()[j] == old(self).all_ranges()[nvm + nmm]);
                    assert(ranges_disjoint(old(self).all_ranges()[nvm + nmm], nr));
                } else {
                    let i1: int = if i < nvm + nmm { i } else { i - 1 };
                    let j1: int = if j < nvm + nmm { j } else { j - 1 };
                    assert(self.all_ranges()[i] == old(self).all_ranges()[i1]);
                    assert(self.all_ranges()[j] == old(self).all_ranges()[j1]);
                    assert(ranges_disjoint(old(self).all_ranges()[i1], old(self).all_ranges()[j1]));
                }
            };
            assert forall|v: VirtPageNum|
                self.pt().dom().contains(v) && (#[trigger] self.pt()[v]).flags.cow implies self.owned_vpn(
                v,
            ) by {
                assert(old(self).owned_vpn(v));
            };
            assert forall|v1: VirtPageNum, v2: VirtPageNum|
                self.owned_vpn(v1) && self.owned_vpn(v2) && v1 != v2 implies (
            #[trigger] self.pt()[v1]).ppn != (#[trigger] self.pt()[v2]).ppn by {
                assert(old(self).owned_vpn(v1));
                assert(old(self).owned_vpn(v2));
            };
            assert forall|j: int, v: VirtPageNum|
                0 <= j < self.page_table.node_ppns().len() && self.owned_vpn(v) implies (
            #[trigger] self.page_table.node_ppns()[j]) != (#[trigger] self.pt()[v]).ppn by {
                assert(old(self).owned_vpn(v));
            };
        }
    }

    /// Insert an eagerly mapped region over the byte range
    /// `[start_va, end_va)` with the given permission: the convenience
    /// path for stacks and the trap-context page.
    pub fn insert_framed_area(
        &mut self,
        start_va: VirtAddr,
        end_va: VirtAddr,
        permission: MapPermission,
        a: &mut StackFrameAllocator,
    )
        requires
            old(self).wf(),
            old(self).counts_held(*old(a)),
            old(a).wf(),
            start_va.0 / PAGE_SIZE <= crate::address::spec_page_ceil(end_va.0 as int),
            forall|i: int|
                0 <= i < old(self).all_ranges().len() ==> ranges_disjoint(
                    #[trigger] old(self).all_ranges()[i],
                    VPNRange {
                        start: VirtPageNum(start_va.0 / PAGE_SIZE),
                        end: VirtPageNum(crate::address::spec_page_ceil(end_va.0 as int) as usize),
                    },
                ),
            old(a).free_frames() >= 3 * (crate::address::spec_page_ceil(end_va.0 as int)
                - start_va.0 / PAGE_SIZE),
        ensures
            final(self).wf(),
            final(self).counts_held(*final(a)),
            final(self).vm_ranges() == old(self).vm_ranges().push(
                VPNRange {
                    start: VirtPageNum(start_va.0 / PAGE_SIZE),
                    end: VirtPageNum(crate::address::spec_page_ceil(end_va.0 as int) as usize),
                },
            ),
            final(self).mmap_areas == old(self).mmap_areas,
            final(self).heap_areas == old(self).heap_areas,
            final(self).brk == old(self).brk && final(self).brk_start == old(self).brk_start,
            final(self).vm_areas@.len() == old(self).vm_areas@.len() + 1,
            forall|i: int|
                0 <= i < old(self).vm_areas@.len() ==> #[trigger] final(self).vm_areas@[i] == old(self).vm_areas@[i],
            final(self).vm_areas@.last().map_perm == permission,
            final(self).vm_areas@.last().map_type == MapType::Framed,
            final(a).wf(),
            final(a).spec_base() == old(a).spec_base(),
            final(a).spec_end() == old(a).spec_end(),
            final(a).free_frames() >= old(a).free_frames() - 3 * (crate::address::spec_page_ceil(
                end_va.0 as int,
            ) - start_va.0 / PAGE_SIZE),
            // every page of the range is now mapped, writable per the
            // permission, on a fresh zeroed frame
            forall|v: VirtPageNum|
                (VPNRange {
                    start: VirtPageNum(start_va.0 / PAGE_SIZE),
                    end: VirtPageNum(crate::address::spec_page_ceil(end_va.0 as int) as usize),
                }).spec_contains(v) ==> #[trigger] final(self).pt().dom().contains(v) && final(self).pt()[v].flags == perm_flags(permission),
            forall|v: VirtPageNum|
                !(VPNRange {
                    start: VirtPageNum(start_va.0 / PAGE_SIZE),
                    end: VirtPageNum(crate::address::spec_page_ceil(end_va.0 as int) as usize),
                }).spec_contains(v) ==> #[trigger] final(self).pt().dom().contains(v) == old(self).pt().dom().contains(v),
            forall|v: VirtPageNum|
                !(VPNRange {
                    start: VirtPageNum(start_va.0 / PAGE_SIZE),
                    end: VirtPageNum(crate::address::spec_page_ceil(end_va.0 as int) as usize),
                }).spec_contains(v) && old(self).pt().dom().contains(v) ==> #[trigger] final(self).pt()[v] == old(self).pt()[v],
            forall|p: PhysPageNum|
                old(a).has_ref(p) ==> #[trigger] final(a).count(p) == old(a).count(p),
            forall|p: PhysPageNum|
                old(a).manages(p) && old(a).has_ref(p) ==> #[trigger] final(a).page(p) == old(a).page(p),
            // the pages sit on fresh, solely owned, zero-filled frames
            forall|v: VirtPageNum|
                (VPNRange {
                    start: VirtPageNum(start_va.0 / PAGE_SIZE),
                    end: VirtPageNum(crate::address::spec_page_ceil(end_va.0 as int) as usize),
                }).spec_contains(v) ==> !old(a).has_ref((#[trigger] final(self).pt()[v]).ppn)
                    && final(a).count(final(self).pt()[v].ppn) == 1,
            forall|v: VirtPageNum, off: int|
                (VPNRange {
                    start: VirtPageNum(start_va.0 / PAGE_SIZE),
                    end: VirtPageNum(crate::address::spec_page_ceil(end_va.0 as int) as usize),
                }).spec_contains(v) && 0 <= off < PAGE_SIZE ==> #[trigger] final(self).mem_byte(
                    *final(a),
                    v,
                    off,
                ) == 0u8,
    {
        let area = MapArea::new(start_va, end_va, MapType::Framed, permission);
        self.push(area, None, a);
    }

    /// Whether `v` lies in this space's trap-context region: the one
    /// contiguous region whose range starts at the trap-context page.
    pub open spec fn in_trap_area(self, v: VirtPageNum) -> bool {
        exists|i: int|
            0 <= i < self.vm_areas@.len() && (#[trigger] self.vm_areas@[i]).vpn_range.start.0
                == TRAP_CONTEXT / PAGE_SIZE && self.vm_areas@[i].vpn_range.spec_contains(v)
    }

    /// Pages of the contiguous regions from index `i` on.
    pub open spec fn vm_pages_from(self, i: int) -> int
        decreases self.vm_areas@.len() - i,
    {
        if i < 0 || i >= self.vm_areas@.len() {
            0
        } else {
            self.vm_areas@[i].vpn_range.spec_len() + self.vm_pages_from(i + 1)
        }
    }

    /// Resident pages of the mmap regions from index `j` on.
    pub open spec fn mmap_pages_from(self, j: int) -> int
        decreases self.mmap_areas@.len() - j,
    {
        if j < 0 || j >= self.mmap_areas@.len() {
            0
        } else {
            self.mmap_areas@[j].vpn_table@.len() + self.mmap_pages_from(j + 1)
        }
    }

    /// Every page this space holds a frame for.
    pub open spec fn total_pages(self) -> int {
        self.vm_pages_from(0) + self.mmap_pages_from(0) + self.heap_areas.vpn_table@.len()
    }

    /// Whether the byte range `[start_va, start_va + len)` is fully
    /// contained in one declared region: a contiguous region, one mmap
    /// region, or the heap. A range straddling two regions is rejected.
    pub fn check_va_range(&self, start_va: VirtAddr, len: usize) -> (r: bool)
        requires
            self.wf(),
        ensures
            r == (start_va.0 + len <= usize::MAX && exists|i: int|
                0 <= i < self.all_ranges().len() && range_covers(
                    #[trigger] self.all_ranges()[i],
                    start_va.0 as int,
                    len as int,
                )),
    {
        // a byte range that wraps the address space lies in no region
        if len > usize::MAX - start_va.0 {
            return false;
        }
        let end_va = VirtAddr(start_va.0 + len);
        let floor = start_va.floor();
        let ceil = end_va.ceil();
        let nv = self.vm_areas.len();
        let mut i: usize = 0;
        while i < nv
            invariant
                i <= nv,
                nv == self.vm_areas@.len(),
                start_va.0 + len <= usize::MAX,
                floor.0 == start_va.0 / PAGE_SIZE,
                ceil.0 == crate::address::spec_page_ceil(start_va.0 + len),
                forall|j: int|
                    0 <= j < i ==> !range_covers(
                        (#[trigger] self.vm_areas@[j]).vpn_range,
                        start_va.0 as int,
                        len as int,
                    ),
            decreases nv - i,
        {
            let rg = self.vm_areas[i].vpn_range;
            if rg.get_start().0 <= floor.0 && ceil.0 <= rg.get_end().0 {
                proof {
                    assert(self.all_ranges()[i as int] == self.vm_areas@[i as int].vpn_range);
                }
                return true;
            }
            i += 1;
        }
        let nm = self.mmap_areas.len();
        let mut j: usize = 0;
        while j < nm
            invariant
                j <= nm,
                nm == self.mmap_areas@.len(),
                start_va.0 + len <= usize::MAX,
                floor.0 == start_va.0 / PAGE_SIZE,
                ceil.0 == crate::address::spec_page_ceil(start_va.0 + len),
                forall|k: int|
                    0 <= k < self.vm_areas@.len() ==> !range_covers(
                        (#[trigger] self.vm_areas@[k]).vpn_range,
                        start_va.0 as int,
                        len as int,
                    ),
                forall|k: int|
                    0 <= k < j ==> !range_covers(
                        (#[trigger] self.mmap_areas@[k]).vpn_range,
                        start_va.0 as int,
                        len as int,
                    ),
            decreases nm - j,
        {
            let rg = self.mmap_areas[j].vpn_range;
            if rg.get_start().0 <= floor.0 && ceil.0 <= rg.get_end().0 {
                proof {
                    assert(self.all_ranges()[self.vm_areas@.len() + j as int]
                        == self.mmap_areas@[j as int].vpn_range);
                }
                return true;
            }
            j += 1;
        }
        let rg = self.heap_areas.vpn_range;
        if rg.get_start().0 <= floor.0 && ceil.0 <= rg.get_end().0 {
            proof {
                assert(self.all_ranges()[self.all_ranges().len() - 1] == self.heap_range());
            }
            return true;
        }
        proof {
            assert forall|i2: int|
                0 <= i2 < self.all_ranges().len() implies !range_covers(
                #[trigger] self.all_ranges()[i2],
                start_va.0 as int,
                len as int,
            ) by {
                if i2 < self.vm_areas@.len() {
                    assert(self.all_ranges()[i2] == self.vm_areas@[i2].vpn_range);
                } else if i2 < self.vm_areas@.len() + self.mmap_areas@.len() {
                    assert(self.all_ranges()[i2] == self.mmap_areas@[i2
                        - self.vm_areas@.len()].vpn_range);
                } else {
                    assert(self.all_ranges()[i2] == self.heap_range());
                }
            };
        }
        false
    }

    /// Adjust the end-of-heap boundary by `grow_size` bytes. Returns the
    /// new boundary, or `None` when the result would leave the declared
    /// heap: above its fixed upper limit, or below `brk_start`.
    pub fn grow_proc(&mut self, grow_size: isize) -> (r: Option<usize>)
        requires
            old(self).wf(),
        ensures
            final(self).wf(),
            final(self).page_table == old(self).page_table,
            final(self).vm_areas == old(self).vm_areas,
            final(self).mmap_areas == old(self).mmap_areas,
            final(self).heap_areas == old(self).heap_areas,
            final(self).brk_start == old(self).brk_start,
            match spec_grow(old(self).brk as int, old(self).brk_start as int, old(self).heap_range().end.0
                * PAGE_SIZE, grow_size as int) {
                Some(nb) => r == Some(nb as usize) && final(self).brk == nb,
                None => r is None && final(self).brk == old(self).brk,
            },
    {
        proof {
            assert(self.heap_range().end.0 * PAGE_SIZE <= usize::MAX) by {
                assert(self.heap_range().end.0 <= usize::MAX / PAGE_SIZE);
            };
        }
        let limit = self.heap_areas.vpn_range.get_end().0 * PAGE_SIZE;
        if grow_size >= 0 {
            let g = grow_size as usize;
            if g > limit - self.brk {
                return None;
            }
            self.brk = self.brk + g;
            proof {
                lemma_wf_brk_change(*old(self), *self);
            }
            Some(self.brk)
        } else {
            let g = ((-(grow_size + 1)) as usize) + 1;
            proof {
                assert(g == -(grow_size as int));
            }
            if g > self.brk - self.brk_start {
                return None;
            }
            self.brk = self.brk - g;
            proof {
                lemma_wf_brk_change(*old(self), *self);
            }
            Some(self.brk)
        }
    }
    /// Install a new contiguous region: map every page of `map_area` and,
    /// when a preload descriptor `(source, offset, len, page_offset)` is
    /// given, copy `source[offset .. offset + len]` into the fresh pages
    /// starting `page_offset` bytes into the region (the ELF segment
    /// loading path). The region must not overlap any declared region.
    pub fn push(
        &mut self,
        map_area: MapArea,
        data: Option<(&Vec<u8>, usize, usize, usize)>,
        a: &mut StackFrameAllocator,
    )
        requires
            old(self).wf(),
            old(self).counts_held(*old(a)),
            old(a).wf(),
            map_area.data_frames@.len() == 0,
            map_area.vpn_range.start.0 <= map_area.vpn_range.end.0,
            forall|i: int|
                0 <= i < old(self).all_ranges().len() ==> ranges_disjoint(
                    #[trigger] old(self).all_ranges()[i],
                    map_area.vpn_range,
                ),
            old(a).free_frames() >= 3 * map_area.vpn_range.spec_len(),
            data is Some ==> {
                &&& map_area.map_type is Framed
                &&& data->Some_0.1 + data->Some_0.2 <= data->Some_0.0@.len()
                &&& data->Some_0.3 < PAGE_SIZE
                &&& data->Some_0.3 + data->Some_0.2 <= map_area.vpn_range.spec_len() * PAGE_SIZE
            },
        ensures
            final(self).wf(),
            final(self).counts_held(*final(a)),
            final(self).vm_ranges() == old(self).vm_ranges().push(map_area.vpn_range),
            final(self).vm_areas@.len() == old(self).vm_areas@.len() + 1,
            forall|i: int|
                0 <= i < old(self).vm_areas@.len() ==> #[trigger] final(self).vm_areas@[i] == old(self).vm_areas@[i],
            final(self).vm_areas@.last().vpn_range == map_area.vpn_range,
            final(self).vm_areas@.last().map_type == map_area.map_type,
            final(self).vm_areas@.last().map_perm == map_area.map_perm,
            final(self).mmap_areas == old(self).mmap_areas,
            final(self).heap_areas == old(self).heap_areas,
            final(self).brk == old(self).brk && final(self).brk_start == old(self).brk_start,
            final(a).wf(),
            final(a).spec_base() == old(a).spec_base(),
            final(a).spec_end() == old(a).spec_end(),
            final(a).free_frames() >= old(a).free_frames() - 3 * map_area.vpn_range.spec_len(),
            forall|p: PhysPageNum| #[trigger] final(a).count(p) >= old(a).count(p),
            // the page table outside the new region is untouched
            forall|v: VirtPageNum|
                !map_area.vpn_range.spec_contains(v) ==> #[trigger] final(self).pt().dom().contains(
                    v,
                ) == old(self).pt().dom().contains(v),
            forall|v: VirtPageNum|
                !map_area.vpn_range.spec_contains(v) && old(self).pt().dom().contains(v)
                    ==> #[trigger] final(self).pt()[v] == old(self).pt()[v],
            // the new region's pages are mapped with its permission
            forall|v: VirtPageNum|
                map_area.vpn_range.spec_contains(v) ==> #[trigger] final(self).pt().dom().contains(
                    v,
                ),
            forall|v: VirtPageNum|
                map_area.vpn_range.spec_contains(v) ==> (#[trigger] final(self).pt()[v]).flags
                    == perm_flags(map_area.map_perm),
            // frames referenced before keep their count and contents
            forall|p: PhysPageNum|
                old(a).has_ref(p) ==> #[trigger] final(a).count(p) == old(a).count(p),
            forall|p: PhysPageNum|
                old(a).manages(p) && old(a).has_ref(p) ==> #[trigger] final(a).page(p) == old(a).page(p),
            // a framed region's pages sit on fresh, solely owned frames and
            // hold the preloaded bytes, zero elsewhere
            map_area.map_type is Framed ==> forall|v: VirtPageNum|
                map_area.vpn_range.spec_contains(v) ==> !old(a).has_ref(
                    (#[trigger] final(self).pt()[v]).ppn,
                ) && final(a).count(final(self).pt()[v].ppn) == 1,
            map_area.map_type is Framed ==> forall|v: VirtPageNum, off: int|
                map_area.vpn_range.spec_contains(v) && 0 <= off < PAGE_SIZE
                    ==> #[trigger] final(self).mem_byte(*final(a), v, off) == spec_preload_byte(
                    data,
                    (v.0 - map_area.vpn_range.start.0) * PAGE_SIZE + off,
                ),
            // the table's own frames: old ones kept, new ones fresh
            final(self).page_table.node_ppns().len() >= old(self).page_table.node_ppns().len(),
            forall|j: int|
                0 <= j < old(self).page_table.node_ppns().len()
                    ==> #[trigger] final(self).page_table.node_ppns()[j] == old(self).page_table.node_ppns()[j],
            forall|j: int|
                old(self).page_table.node_ppns().len() <= j < final(self).page_table.node_ppns().len() ==> !old(a).has_ref(
                    #[trigger] final(self).page_table.node_ppns()[j],
                ) && final(a).count(final(self).page_table.node_ppns()[j]) == 1 && final(a).manages(
                    final(self).page_table.node_ppns()[j],
                ),
    {
        let mut map_area = map_area;
        let ghost a0 = *a;
        map_area.map(&mut self.page_table, a);
        let ghost a_mid = *a;
        if let Some((src, offset, dlen, page_offset)) = data {
            map_area.copy_data(a, src, offset, dlen, page_offset);
        }
        let ghost area_after = map_area;
        self.vm_areas.push(map_area);
        proof {
            let nr = area_after.vpn_range;
            let nvm = old(self).vm_areas@.len() as int;
            assert(final(self).vm_ranges() =~= old(self).vm_ranges().push(nr));
            // old regions keep their mappings: their pages are outside nr
            assert forall|i: int|
                0 <= i < nvm implies (#[trigger] self.vm_areas@[i]).mapped_in(self.page_table) by {
                let ar = old(self).vm_areas@[i];
                assert(self.vm_areas@[i] == ar);
                assert(old(self).all_ranges()[i] == ar.vpn_range);
                assert(ranges_disjoint(ar.vpn_range, nr));
                assert forall|k: int|
                    0 <= k < ar.vpn_range.spec_len() implies self.page_table.view().dom().contains(
                    #[trigger] vpn_at(ar.vpn_range, k),
                ) && self.page_table.view()[vpn_at(ar.vpn_range, k)] == old(self).pt()[vpn_at(ar.vpn_range, k)] by {
                    assert(ar.vpn_range.spec_contains(vpn_at(ar.vpn_range, k)));
                    assert(!nr.spec_contains(vpn_at(ar.vpn_range, k)));
                };
                assert(ar.mapped_in(old(self).page_table));
            };
            assert forall|i: int|
                0 <= i < self.mmap_areas@.len() implies (#[trigger] self.mmap_areas@[i]).mapped_in(
                self.page_table,
            ) by {
                let ch = old(self).mmap_areas@[i];
                assert(self.mmap_areas@[i] == ch);
                assert(old(self).all_ranges()[nvm + i] == ch.vpn_range);
                assert(ranges_disjoint(ch.vpn_range, nr));
                assert forall|k: int|
                    0 <= k < ch.vpn_table@.len() implies self.page_table.view().dom().contains(
                    #[trigger] ch.vpn_table@[k],
                ) && self.page_table.view()[ch.vpn_table@[k]] == old(self).pt()[ch.vpn_table@[k]] by {
                    assert(ch.vpn_range.spec_contains(ch.vpn_table@[k]));
                    assert(!nr.spec_contains(ch.vpn_table@[k]));
                };
                assert(ch.mapped_in(old(self).page_table));
            };
            assert(self.heap_areas.mapped_in(self.page_table)) by {
                let ch = old(self).heap_areas;
                assert(old(self).all_ranges()[old(self).all_ranges().len() - 1] == ch.vpn_range);
                assert(ranges_disjoint(ch.vpn_range, nr));
                assert forall|k: int|
                    0 <= k < ch.vpn_table@.len() implies self.page_table.view().dom().contains(
                    #[trigger] ch.vpn_table@[k],
                ) && self.page_table.view()[ch.vpn_table@[k]] == old(self).pt()[ch.vpn_table@[k]] by {
                    assert(ch.vpn_range.spec_contains(ch.vpn_table@[k]));
                    assert(!nr.spec_contains(ch.vpn_table@[k]));
                };
            };
            // region disjointness, with the new region at slot nvm
            assert forall|i: int, j: int|
                0 <= i < j < self.all_ranges().len() implies ranges_disjoint(
                #[trigger] self.all_ranges()[i],
                #[trigger] self.all_ranges()[j],
            ) by {
                let n2 = self.all_ranges().len();
                if j == nvm {
                    assert(self.all_ranges()[i] == old(self).all_ranges()[i]);
                    assert(ranges_disjoint(old(self).all_ranges()[i], nr));
                } else if i == nvm {
                    assert(self.all_ranges()[j] == old(self).all_ranges()[j - 1]);
                    assert(ranges_disjoint(old(self).all_ranges()[j - 1], nr));
                } else {
                    let i1: int = if i < nvm { i } else { i - 1 };
                    let j1: int = if j < nvm { j } else { j - 1 };
                    assert(self.all_ranges()[i] == old(self).all_ranges()[i1]);
                    assert(self.all_ranges()[j] == old(self).all_ranges()[j1]);
                    assert(ranges_disjoint(old(self).all_ranges()[i1], old(self).all_ranges()[j1]));
                }
            };
            // every owned page of the old space stays owned and keeps its
            // entry
            assert forall|v: VirtPageNum| old(self).owned_vpn(v) implies #[trigger] self.owned_vpn(
                v,
            ) && !nr.spec_contains(v) && self.pt()[v] == old(self).pt()[v]
                && self.pt().dom().contains(v) by {
                if exists|i: int|
                    0 <= i < old(self).vm_areas@.len() && (#[trigger] old(self).vm_areas@[i]).map_type is Framed && old(self).vm_areas@[i].vpn_range.spec_contains(
                        v,
                    ) {
                    let i = choose|i: int|
                        0 <= i < old(self).vm_areas@.len() && (#[trigger] old(self).vm_areas@[i]).map_type is Framed && old(self).vm_areas@[i].vpn_range.spec_contains(v);
                    assert(old(self).all_ranges()[i] == old(self).vm_areas@[i].vpn_range);
                    assert(ranges_disjoint(old(self).vm_areas@[i].vpn_range, nr));
                    assert(self.vm_areas@[i] == old(self).vm_areas@[i]);
                    assert(old(self).vm_areas@[i].mapped_in(old(self).page_table));
                    let k = v.0 - old(self).vm_areas@[i].vpn_range.start.0;
                    assert(vpn_at(old(self).vm_areas@[i].vpn_range, k as int) == v);
                } else if exists|i: int|
                    0 <= i < old(self).mmap_areas@.len() && (#[trigger] old(self).mmap_areas@[i]).resident(v) {
                    let i = choose|i: int|
                        0 <= i < old(self).mmap_areas@.len() && (#[trigger] old(self).mmap_areas@[i]).resident(v);
                    assert(self.mmap_areas@[i].resident(v));
                    assert(old(self).all_ranges()[nvm + i] == old(self).mmap_areas@[i].vpn_range);
                    assert(ranges_disjoint(old(self).mmap_areas@[i].vpn_range, nr));
                    let k = choose|k: int|
                        0 <= k < old(self).mmap_areas@[i].vpn_table@.len() && old(self).mmap_areas@[i].vpn_table@[k] == v;
                    assert(old(self).mmap_areas@[i].vpn_range.spec_contains(v));
                    assert(old(self).mmap_areas@[i].mapped_in(old(self).page_table));
                } else {
                    assert(old(self).heap_areas.resident(v));
                    assert(old(self).all_ranges()[old(self).all_ranges().len() - 1] == old(self).heap_range());
                    assert(ranges_disjoint(old(self).heap_range(), nr));
                    let k = choose|k: int|
                        0 <= k < old(self).heap_areas.vpn_table@.len() && old(self).heap_areas.vpn_table@[k] == v;
                    assert(old(self).heap_areas.vpn_range.spec_contains(v));
                    assert(old(self).heap_areas.mapped_in(old(self).page_table));
                }
            };
            // and conversely, a page owned now was owned before or is new
            assert forall|v: VirtPageNum|
                #[trigger] self.owned_vpn(v) && !nr.spec_contains(v) implies old(self).owned_vpn(
                v,
            ) by {
                if exists|i: int|
                    0 <= i < self.vm_areas@.len() && (#[trigger] self.vm_areas@[i]).map_type is Framed
                        && self.vm_areas@[i].vpn_range.spec_contains(v) {
                    let i = choose|i: int|
                        0 <= i < self.vm_areas@.len() && (#[trigger] self.vm_areas@[i]).map_type is Framed
                            && self.vm_areas@[i].vpn_range.spec_contains(v);
                    assert(i < nvm);
                    assert(old(self).vm_areas@[i] == self.vm_areas@[i]);
                }
            };
            // the new region's pages are owned (framed case) and fresh
            assert(self.vm_areas@[nvm] == area_after);
            if area_after.map_type is Framed {
                assert forall|v: VirtPageNum| nr.spec_contains(v) implies #[trigger] self.owned_vpn(
                    v,
                ) && !a0.has_ref(self.pt()[v].ppn) && a.count(self.pt()[v].ppn) == 1 by {
                    let k = v.0 - nr.start.0;
                    assert(vpn_at(nr, k as int) == v);
                    assert(area_after.mapped_in(self.page_table));
                    assert(self.pt()[v].ppn == area_after.data_frames@[k as int].ppn);
                };
                assert forall|v: VirtPageNum| nr.spec_contains(v) implies !a0.has_ref(
                    (#[trigger] self.pt()[v]).ppn,
                ) && a.count(self.pt()[v].ppn) == 1 by {
                    let k = v.0 - nr.start.0;
                    assert(vpn_at(nr, k as int) == v);
                    assert(self.pt()[v].ppn == area_after.data_frames@[k as int].ppn);
                };
            }
            // copy-on-write marks appear only on owned pages
            assert forall|v: VirtPageNum|
                self.pt().dom().contains(v) && (#[trigger] self.pt()[v]).flags.cow implies self.owned_vpn(
                v,
            ) by {
                if nr.spec_contains(v) {
                    assert(self.pt()[v].flags == perm_flags(area_after.map_perm));
                    assert(false);
                } else {
                    assert(self.pt()[v] == old(self).pt()[v]);
                    assert(old(self).owned_vpn(v));
                }
            };
            // no two owned pages share a frame
            assert forall|v1: VirtPageNum, v2: VirtPageNum|
                self.owned_vpn(v1) && self.owned_vpn(v2) && v1 != v2 implies (
            #[trigger] self.pt()[v1]).ppn != (#[trigger] self.pt()[v2]).ppn by {
                if nr.spec_contains(v1) && nr.spec_contains(v2) {
                    if area_after.map_type is Framed {
                        let k1 = v1.0 - nr.start.0;
                        let k2 = v2.0 - nr.start.0;
                        assert(vpn_at(nr, k1 as int) == v1);
                        assert(vpn_at(nr, k2 as int) == v2);
                        assert(self.pt()[v1].ppn == area_after.data_frames@[k1 as int].ppn);
                        assert(self.pt()[v2].ppn == area_after.data_frames@[k2 as int].ppn);
                    } else {
                        assert(self.pt()[v1].ppn.0 == v1.0);
                        assert(self.pt()[v2].ppn.0 == v2.0);
                    }
                } else if nr.spec_contains(v1) {
                    assert(old(self).owned_vpn(v2));
                    assert(a0.has_ref(old(self).pt()[v2].ppn)) by {
                        lemma_owned_count(*old(self), a0, v2);
                    };
                    if area_after.map_type is Framed {
                        let k1 = v1.0 - nr.start.0;
                        assert(vpn_at(nr, k1 as int) == v1);
                        assert(!a0.has_ref(self.pt()[v1].ppn));
                    }
                } else if nr.spec_contains(v2) {
                    assert(old(self).owned_vpn(v1));
                    assert(a0.has_ref(old(self).pt()[v1].ppn)) by {
                        lemma_owned_count(*old(self), a0, v1);
                    };
                    if area_after.map_type is Framed {
                        let k2 = v2.0 - nr.start.0;
                        assert(vpn_at(nr, k2 as int) == v2);
                        assert(!a0.has_ref(self.pt()[v2].ppn));
                    }
                } else {
                    assert(old(self).owned_vpn(v1));
                    assert(old(self).owned_vpn(v2));
                }
            };
            // the table's frames never double as data frames
            assert forall|j: int, v: VirtPageNum|
                0 <= j < self.page_table.node_ppns().len() && self.owned_vpn(v) implies (
            #[trigger] self.page_table.node_ppns()[j]) != (#[trigger] self.pt()[v]).ppn by {
                let old_nodes = old(self).page_table.node_ppns().len() as int;
                if nr.spec_contains(v) {
                    assert(area_after.map_type is Framed);
                    let k = v.0 - nr.start.0;
                    assert(vpn_at(nr, k as int) == v);
                    assert(self.pt()[v].ppn == area_after.data_frames@[k as int].ppn);
                    if j < old_nodes {
                        assert(a0.has_ref(old(self).page_table.node_ppns()[j]));
                        assert(self.page_table.node_ppns()[j] == old(self).page_table.node_ppns()[j]);
                        assert(!a0.has_ref(area_after.data_frames@[k as int].ppn));
                    }
                } else {
                    assert(old(self).owned_vpn(v));
                    assert(self.pt()[v] == old(self).pt()[v]);
                    lemma_owned_count(*old(self), a0, v);
                    if j < old_nodes {
                        assert(self.page_table.node_ppns()[j] == old(self).page_table.node_ppns()[j]);
                    } else {
                        assert(!a0.has_ref(self.page_table.node_ppns()[j]));
                    }
                }
            };
            // every owned frame is live
            assert forall|i: int|
                0 <= i < self.vm_areas@.len() implies (#[trigger] self.vm_areas@[i]).counts_held(
                *a,
            ) by {
                if i < nvm {
                    assert(old(self).vm_areas@[i].counts_held(a0));
                    assert(self.vm_areas@[i] == old(self).vm_areas@[i]);
                    assert forall|k: int|
                        0 <= k < self.vm_areas@[i].data_frames@.len() implies a.count(
                        (#[trigger] self.vm_areas@[i].data_frames@[k]).ppn,
                    ) >= 1 && a.manages(self.vm_areas@[i].data_frames@[k].ppn) by {
                        assert(a0.has_ref(self.vm_areas@[i].data_frames@[k].ppn));
                    };
                } else {
                    assert(self.vm_areas@[i] == area_after);
                }
            };
            assert forall|i: int|
                0 <= i < self.mmap_areas@.len() implies (#[trigger] self.mmap_areas@[i]).counts_held(
                *a,
            ) by {
                assert(old(self).mmap_areas@[i].counts_held(a0));
                assert(self.mmap_areas@[i] == old(self).mmap_areas@[i]);
                assert forall|k: int|
                    0 <= k < self.mmap_areas@[i].data_frames@.len() implies a.count(
                    (#[trigger] self.mmap_areas@[i].data_frames@[k]).ppn,
                ) >= 1 && a.manages(self.mmap_areas@[i].data_frames@[k].ppn) by {
                    assert(a0.has_ref(self.mmap_areas@[i].data_frames@[k].ppn));
                };
            };
            assert(self.heap_areas.counts_held(*a)) by {
                assert(old(self).heap_areas.counts_held(a0));
                assert forall|k: int|
                    0 <= k < self.heap_areas.data_frames@.len() implies a.count(
                    (#[trigger] self.heap_areas.data_frames@[k]).ppn,
                ) >= 1 && a.manages(self.heap_areas.data_frames@[k].ppn) by {
                    assert(a0.has_ref(self.heap_areas.data_frames@[k].ppn));
                };
            };
            assert forall|j: int|
                0 <= j < self.page_table.node_ppns().len() implies a.count(
                #[trigger] self.page_table.node_ppns()[j],
            ) >= 1 && a.manages(self.page_table.node_ppns()[j]) by {
                if j < old(self).page_table.node_ppns().len() {
                    assert(a0.has_ref(old(self).page_table.node_ppns()[j]));
                    assert(self.page_table.node_ppns()[j] == old(self).page_table.node_ppns()[j]);
                }
            };
            // the preloaded contents, stated per page and offset
            if area_after.map_type is Framed {
                assert forall|v: VirtPageNum, off: int|
                    nr.spec_contains(v) && 0 <= off < PAGE_SIZE implies #[trigger] self.mem_byte(
                    *a,
                    v,
                    off,
                ) == spec_preload_byte(data, (v.0 - nr.start.0) * PAGE_SIZE + off) by {
                    let k = v.0 - nr.start.0;
                    let pos = k * PAGE_SIZE + off;
                    assert(vpn_at(nr, k as int) == v);
                    vstd::arithmetic::div_mod::lemma_fundamental_div_mod_converse(
                        pos,
                        PAGE_SIZE as int,
                        k as int,
                        off,
                    );
                    assert(self.pt()[v].ppn == area_after.data_frames@[k as int].ppn);
                    assert(area_after.byte_at(*a, pos) == self.mem_byte(*a, v, off));
                    match data {
                        Some((src, offset, dlen, page_offset)) => {
                            if page_offset <= pos < page_offset + dlen {
                                let pos2 = pos - page_offset;
                                assert(area_after.byte_at(*a, page_offset + pos2) == src@[offset
                                    + pos2]);
                                assert(pos == page_offset + pos2);
                            } else {
                                assert(area_after.byte_at(*a, pos) == area_after.byte_at(
                                    a_mid,
                                    pos,
                                ));
                                assert(a_mid.page(area_after.data_frames@[k as int].ppn)
                                    == zero_page());
                            }
                        },
                        None => {
                            assert(a.page(area_after.data_frames@[k as int].ppn) == zero_page());
                        },
                    }
                };
            }
        }
    }

    /// Remove the region at index `i`: unmap every page, release the
    /// owned frames, and drop the region.
    fn remove_vm_area_at(&mut self, i: usize, a: &mut StackFrameAllocator)
        requires
            old(self).wf(),
            old(self).counts_held(*old(a)),
            old(a).wf(),
            i < old(self).vm_areas@.len(),
        ensures
            final(self).wf(),
            final(self).counts_held(*final(a)),
            final(self).vm_areas@ == old(self).vm_areas@.remove(i as int),
            final(self).mmap_areas == old(self).mmap_areas,
            final(self).heap_areas == old(self).heap_areas,
            final(self).brk == old(self).brk && final(self).brk_start == old(self).brk_start,
            final(self).page_table.spec_root() == old(self).page_table.spec_root(),
            final(self).page_table.node_ppns() == old(self).page_table.node_ppns(),
            final(a).wf(),
            final(a).spec_base() == old(a).spec_base(),
            final(a).spec_end() == old(a).spec_end(),
            // the removed region's pages are gone, the rest is untouched
            forall|v: VirtPageNum|
                old(self).vm_areas@[i as int].vpn_range.spec_contains(v) ==> !final(self).pt().dom().contains(v),
            forall|v: VirtPageNum|
                !old(self).vm_areas@[i as int].vpn_range.spec_contains(v) ==> #[trigger] final(self).pt().dom().contains(v) == old(self).pt().dom().contains(v),
            forall|v: VirtPageNum|
                !old(self).vm_areas@[i as int].vpn_range.spec_contains(v) && old(self).pt().dom().contains(v) ==> #[trigger] final(self).pt()[v] == old(self).pt()[v],
            // each of its frames lost exactly one reference
            old(self).vm_areas@[i as int].map_type is Framed ==> forall|v: VirtPageNum|
                old(self).vm_areas@[i as int].vpn_range.spec_contains(v) ==> final(a).count(
                    (#[trigger] old(self).pt()[v]).ppn,
                ) == old(a).count(old(self).pt()[v].ppn) - 1,
            forall|p: PhysPageNum|
                (forall|v: VirtPageNum|
                    old(self).vm_areas@[i as int].vpn_range.spec_contains(v) ==> (#[trigger] old(self).pt()[v]).ppn != p) ==> #[trigger] final(a).count(p) == old(a).count(p),
            old(self).vm_areas@[i as int].map_type is Identical ==> forall|p: PhysPageNum|
                #[trigger] final(a).count(p) == old(a).count(p),
            forall|p: PhysPageNum|
                old(a).manages(p) ==> #[trigger] final(a).page(p) == old(a).page(p),
    {
        let ghost a0 = *a;
        let ghost m0 = *self;
        let ghost ar = old(self).vm_areas@[i as int];
        let area_ref = &mut self.vm_areas[i];
        area_ref.unmap(&mut self.page_table, a);
        self.vm_areas.remove(i);
        proof {
            let nr = ar.vpn_range;
            let nvm0 = m0.vm_areas@.len() as int;
            // translate frame-indexed effects of the unmap into per-page form
            if ar.map_type is Framed {
                assert forall|v: VirtPageNum| nr.spec_contains(v) implies final(a).count(
                    (#[trigger] m0.pt()[v]).ppn,
                ) == a0.count(m0.pt()[v].ppn) - 1 by {
                    let k = v.0 - nr.start.0;
                    assert(vpn_at(nr, k as int) == v);
                    assert(ar.mapped_in(m0.page_table));
                    assert(m0.pt()[v].ppn == ar.data_frames@[k as int].ppn);
                };
            }
            assert forall|p: PhysPageNum|
                (forall|v: VirtPageNum|
                    nr.spec_contains(v) ==> (#[trigger] m0.pt()[v]).ppn != p) implies #[trigger] a.count(
                p,
            ) == a0.count(p) by {
                assert forall|k: int| 0 <= k < ar.data_frames@.len() implies (
                #[trigger] ar.data_frames@[k]).ppn != p by {
                    let v = vpn_at(nr, k);
                    assert(nr.spec_contains(v));
                    assert(m0.pt()[v].ppn == ar.data_frames@[k].ppn);
                };
            };
            // the remaining regions keep their mappings and their frames
            assert forall|j: int|
                0 <= j < self.vm_areas@.len() implies (#[trigger] self.vm_areas@[j]).mapped_in(
                self.page_table,
            ) && self.vm_areas@[j].counts_held(*a) && self.vm_areas@[j].frames_distinct() by {
                let j0: int = if j < i { j } else { j + 1 };
                let other = m0.vm_areas@[j0];
                assert(self.vm_areas@[j] == other);
                assert(ranges_disjoint(m0.all_ranges()[if j0 < i as int { j0 } else { i as int }],
                    m0.all_ranges()[if j0 < i as int { i as int } else { j0 }]));
                assert(ranges_disjoint(other.vpn_range, nr) || ranges_disjoint(nr, other.vpn_range));
                assert(other.mapped_in(m0.page_table));
                assert forall|k: int|
                    0 <= k < other.vpn_range.spec_len() implies self.pt().dom().contains(
                    #[trigger] vpn_at(other.vpn_range, k),
                ) && self.pt()[vpn_at(other.vpn_range, k)] == m0.pt()[vpn_at(other.vpn_range, k)] by {
                    assert(other.vpn_range.spec_contains(vpn_at(other.vpn_range, k)));
                    assert(!nr.spec_contains(vpn_at(other.vpn_range, k)));
                };
                if other.map_type is Framed {
                    assert forall|k: int|
                        0 <= k < other.data_frames@.len() implies a.count(
                        (#[trigger] other.data_frames@[k]).ppn,
                    ) >= 1 && a.manages(other.data_frames@[k].ppn) by {
                        let v = vpn_at(other.vpn_range, k);
                        assert(other.vpn_range.spec_contains(v));
                        assert(m0.pt()[v].ppn == other.data_frames@[k].ppn);
                        assert(m0.owned_vpn(v)) by {
                            assert(m0.vm_areas@[j0].map_type is Framed
                                && m0.vm_areas@[j0].vpn_range.spec_contains(v));
                        };
                        if ar.map_type is Framed {
                            assert forall|kk: int| 0 <= kk < ar.data_frames@.len() implies (
                            #[trigger] ar.data_frames@[kk]).ppn != other.data_frames@[k].ppn by {
                                let v2 = vpn_at(nr, kk);
                                assert(ar.mapped_in(m0.page_table));
                                assert(nr.spec_contains(v2));
                                assert(m0.pt()[v2].ppn == ar.data_frames@[kk].ppn);
                                assert(m0.owned_vpn(v2)) by {
                                    assert(m0.vm_areas@[i as int].map_type is Framed
                                        && m0.vm_areas@[i as int].vpn_range.spec_contains(v2));
                                };
                                assert(v2 != v);
                            };
                        } else {
                            assert(ar.data_frames@.len() == 0);
                        }
                        assert(a.count(other.data_frames@[k].ppn) == a0.count(
                            other.data_frames@[k].ppn,
                        ));
                    };
                }
            };
            assert forall|j: int|
                0 <= j < self.mmap_areas@.len() implies (#[trigger] self.mmap_areas@[j]).mapped_in(
                self.page_table,
            ) && self.mmap_areas@[j].counts_held(*a) by {
                let ch = m0.mmap_areas@[j];
                assert(self.mmap_areas@[j] == ch);
                assert(ranges_disjoint(m0.all_ranges()[i as int], m0.all_ranges()[nvm0 + j]));
                assert(ch.mapped_in(m0.page_table));
                assert forall|k: int|
                    0 <= k < ch.vpn_table@.len() implies self.pt().dom().contains(
                    #[trigger] ch.vpn_table@[k],
                ) && self.pt()[ch.vpn_table@[k]] == m0.pt()[ch.vpn_table@[k]] && a.count(
                    ch.data_frames@[k].ppn,
                ) >= 1 && a.manages(ch.data_frames@[k].ppn) by {
                    let v = ch.vpn_table@[k];
                    assert(ch.vpn_range.spec_contains(v));
                    assert(!nr.spec_contains(v));
                    assert(m0.pt()[v].ppn == ch.data_frames@[k].ppn);
                    assert(m0.owned_vpn(v)) by {
                        assert(0 <= j < m0.mmap_areas@.len() && (#[trigger] m0.mmap_areas@[j]).resident(v));
                    };
                    if ar.map_type is Framed {
                        assert forall|kk: int| 0 <= kk < ar.data_frames@.len() implies (
                        #[trigger] ar.data_frames@[kk]).ppn != ch.data_frames@[k].ppn by {
                            let v2 = vpn_at(nr, kk);
                            assert(ar.mapped_in(m0.page_table));
                            assert(nr.spec_contains(v2));
                            assert(m0.pt()[v2].ppn == ar.data_frames@[kk].ppn);
                            assert(m0.owned_vpn(v2)) by {
                                assert(m0.vm_areas@[i as int].map_type is Framed
                                    && m0.vm_areas@[i as int].vpn_range.spec_contains(v2));
                            };
                            assert(v2 != v);
                        };
                    } else {
                        assert(ar.data_frames@.len() == 0);
                    }
                    assert(a.count(ch.data_frames@[k].ppn) == a0.count(ch.data_frames@[k].ppn));
                };
                assert forall|k: int| 0 <= k < ch.data_frames@.len() implies a.count(
                    (#[trigger] ch.data_frames@[k]).ppn,
                ) >= 1 && a.manages(ch.data_frames@[k].ppn) by {
                    assert(self.pt().dom().contains(ch.vpn_table@[k]));
                };
            };
            assert(self.heap_areas.mapped_in(self.page_table) && self.heap_areas.counts_held(*a))
                by {
                let ch = m0.heap_areas;
                assert(ranges_disjoint(m0.all_ranges()[i as int], m0.all_ranges()[m0.all_ranges().len()
                    - 1]));
                assert(ch.mapped_in(m0.page_table));
                assert forall|k: int|
                    0 <= k < ch.vpn_table@.len() implies self.pt().dom().contains(
                    #[trigger] ch.vpn_table@[k],
                ) && self.pt()[ch.vpn_table@[k]] == m0.pt()[ch.vpn_table@[k]] && a.count(
                    ch.data_frames@[k].ppn,
                ) >= 1 && a.manages(ch.data_frames@[k].ppn) by {
                    let v = ch.vpn_table@[k];
                    assert(ch.vpn_range.spec_contains(v));
                    assert(!nr.spec_contains(v));
                    assert(m0.pt()[v].ppn == ch.data_frames@[k].ppn);
                    assert(m0.owned_vpn(v)) by {
                        assert(m0.heap_areas.resident(v));
                    };
                    if ar.map_type is Framed {
                        assert forall|kk: int| 0 <= kk < ar.data_frames@.len() implies (
                        #[trigger] ar.data_frames@[kk]).ppn != ch.data_frames@[k].ppn by {
                            let v2 = vpn_at(nr, kk);
                            assert(ar.mapped_in(m0.page_table));
                            assert(nr.spec_contains(v2));
                            assert(m0.pt()[v2].ppn == ar.data_frames@[kk].ppn);
                            assert(m0.owned_vpn(v2)) by {
                                assert(m0.vm_areas@[i as int].map_type is Framed
                                    && m0.vm_areas@[i as int].vpn_range.spec_contains(v2));
                            };
                            assert(v2 != v);
                        };
                    } else {
                        assert(ar.data_frames@.len() == 0);
                    }
                    assert(a.count(ch.data_frames@[k].ppn) == a0.count(ch.data_frames@[k].ppn));
                };
                assert forall|k: int| 0 <= k < ch.data_frames@.len() implies a.count(
                    (#[trigger] ch.data_frames@[k]).ppn,
                ) >= 1 && a.manages(ch.data_frames@[k].ppn) by {
                    assert(self.pt().dom().contains(ch.vpn_table@[k]));
                };
            };
            // page-table nodes stay live
            assert forall|j: int|
                0 <= j < self.page_table.node_ppns().len() implies a.count(
                #[trigger] self.page_table.node_ppns()[j],
            ) >= 1 && a.manages(self.page_table.node_ppns()[j]) by {
                let q = m0.page_table.node_ppns()[j];
                assert(a0.count(q) >= 1 && a0.manages(q));
                if ar.map_type is Framed {
                    // a data frame of the removed region is the target of
                    // an owned page, so it is never a table node
                    assert forall|k: int| 0 <= k < ar.data_frames@.len() implies (
                    #[trigger] ar.data_frames@[k]).ppn != q by {
                        let v2 = vpn_at(nr, k);
                        assert(ar.mapped_in(m0.page_table));
                        assert(nr.spec_contains(v2));
                        assert(m0.pt()[v2].ppn == ar.data_frames@[k].ppn);
                        assert(m0.owned_vpn(v2)) by {
                            assert(m0.vm_areas@[i as int].map_type is Framed
                                && m0.vm_areas@[i as int].vpn_range.spec_contains(v2));
                        };
                        assert(m0.page_table.node_ppns()[j] != m0.pt()[v2].ppn);
                    };
                } else {
                    assert(ar.data_frames@.len() == 0);
                }
                assert(a.count(q) == a0.count(q));
            };
            // region disjointness after dropping one slot
            assert forall|i2: int, j2: int|
                0 <= i2 < j2 < self.all_ranges().len() implies ranges_disjoint(
                #[trigger] self.all_ranges()[i2],
                #[trigger] self.all_ranges()[j2],
            ) by {
                let i1: int = if i2 < i as int { i2 } else { i2 + 1 };
                let j1: int = if j2 < i as int { j2 } else { j2 + 1 };
                assert(self.all_ranges()[i2] == m0.all_ranges()[i1]);
                assert(self.all_ranges()[j2] == m0.all_ranges()[j1]);
                assert(ranges_disjoint(m0.all_ranges()[i1], m0.all_ranges()[j1]));
            };
            // ownership only shrank; marks and frame-sharing stay sound
            assert forall|v: VirtPageNum| #[trigger] self.owned_vpn(v) implies m0.owned_vpn(v)
                && !nr.spec_contains(v) by {
                if exists|j: int|
                    0 <= j < self.vm_areas@.len() && (#[trigger] self.vm_areas@[j]).map_type is Framed
                        && self.vm_areas@[j].vpn_range.spec_contains(v) {
                    let j = choose|j: int|
                        0 <= j < self.vm_areas@.len() && (#[trigger] self.vm_areas@[j]).map_type is Framed
                            && self.vm_areas@[j].vpn_range.spec_contains(v);
                    let j0: int = if j < i as int { j } else { j + 1 };
                    assert(m0.vm_areas@[j0] == self.vm_areas@[j]);
                    assert(m0.owned_vpn(v)) by {
                        assert(m0.vm_areas@[j0].map_type is Framed
                            && m0.vm_areas@[j0].vpn_range.spec_contains(v));
                    };
                    assert(ranges_disjoint(m0.all_ranges()[if j0 < i as int { j0 } else { i as int }],
                        m0.all_ranges()[if j0 < i as int { i as int } else { j0 }]));
                } else if exists|j: int|
                    0 <= j < self.mmap_areas@.len() && (#[trigger] self.mmap_areas@[j]).resident(v) {
                    let j = choose|j: int|
                        0 <= j < self.mmap_areas@.len() && (#[trigger] self.mmap_areas@[j]).resident(
                        v);
                    assert(m0.mmap_areas@[j].resident(v));
                    assert(m0.owned_vpn(v));
                    assert(m0.mmap_areas@[j].vpn_range.spec_contains(v));
                    assert(ranges_disjoint(m0.all_ranges()[i as int], m0.all_ranges()[nvm0 + j]));
                } else {
                    assert(self.heap_areas.resident(v));
                    assert(m0.owned_vpn(v));
                    assert(m0.heap_areas.vpn_range.spec_contains(v));
                    assert(ranges_disjoint(m0.all_ranges()[i as int], m0.all_ranges()[m0.all_ranges().len() - 1]));
                }
            };
            assert forall|v: VirtPageNum|
                self.pt().dom().contains(v) && (#[trigger] self.pt()[v]).flags.cow implies self.owned_vpn(
                v,
            ) by {
                if nr.spec_contains(v) {
                    assert(!self.pt().dom().contains(v));
                } else {
                    assert(self.pt()[v] == m0.pt()[v]);
                    assert(m0.owned_vpn(v));
                    if exists|j: int|
                        0 <= j < m0.vm_areas@.len() && (#[trigger] m0.vm_areas@[j]).map_type is Framed
                            && m0.vm_areas@[j].vpn_range.spec_contains(v) {
                        let j0 = choose|j: int|
                            0 <= j < m0.vm_areas@.len() && (#[trigger] m0.vm_areas@[j]).map_type is Framed
                                && m0.vm_areas@[j].vpn_range.spec_contains(v);
                        if j0 == i as int {
                            assert(false);
                        } else {
                            let j: int = if j0 < i as int { j0 } else { j0 - 1 };
                            assert(self.vm_areas@[j] == m0.vm_areas@[j0]);
                            assert(self.owned_vpn(v)) by {
                                assert(self.vm_areas@[j].map_type is Framed
                                    && self.vm_areas@[j].vpn_range.spec_contains(v));
                            };
                        }
                    } else if exists|j: int|
                        0 <= j < m0.mmap_areas@.len() && (#[trigger] m0.mmap_areas@[j]).resident(v) {
                        let j = choose|j: int|
                            0 <= j < m0.mmap_areas@.len() && (#[trigger] m0.mmap_areas@[j]).resident(
                            v);
                        assert(self.mmap_areas@[j].resident(v));
                    }
                }
            };
            assert forall|v1: VirtPageNum, v2: VirtPageNum|
                self.owned_vpn(v1) && self.owned_vpn(v2) && v1 != v2 implies (
            #[trigger] self.pt()[v1]).ppn != (#[trigger] self.pt()[v2]).ppn by {
                assert(m0.owned_vpn(v1) && !nr.spec_contains(v1));
                assert(m0.owned_vpn(v2) && !nr.spec_contains(v2));
                lemma_owned_count(m0, a0, v1);
                lemma_owned_count(m0, a0, v2);
                assert(self.pt()[v1] == m0.pt()[v1]);
                assert(self.pt()[v2] == m0.pt()[v2]);
            };
            assert forall|j: int, v: VirtPageNum|
                0 <= j < self.page_table.node_ppns().len() && self.owned_vpn(v) implies (
            #[trigger] self.page_table.node_ppns()[j]) != (#[trigger] self.pt()[v]).ppn by {
                assert(m0.owned_vpn(v) && !nr.spec_contains(v));
                lemma_owned_count(m0, a0, v);
                assert(self.pt()[v] == m0.pt()[v]);
                assert(self.page_table.node_ppns()[j] == m0.page_table.node_ppns()[j]);
            };
        }
    }

    /// Remove the contiguous region whose range starts at `start_vpn`, if
    /// any: unmap every page and release its frames. Without a matching
    /// region nothing changes.
    pub fn remove_area_with_start_vpn(&mut self, start_vpn: VirtPageNum, a: &mut StackFrameAllocator)
        requires
            old(self).wf(),
            old(self).counts_held(*old(a)),
            old(a).wf(),
        ensures
            final(self).wf(),
            final(self).counts_held(*final(a)),
            final(a).wf(),
            final(a).spec_base() == old(a).spec_base(),
            final(a).spec_end() == old(a).spec_end(),
            forall|p: PhysPageNum|
                old(a).manages(p) ==> #[trigger] final(a).page(p) == old(a).page(p),
            (forall|i: int|
                0 <= i < old(self).vm_ranges().len() ==> (#[trigger] old(self).vm_ranges()[i]).start
                    != start_vpn) ==> *final(self) == *old(self) && *final(a) == *old(a),
            forall|i: int|
                0 <= i < old(self).vm_ranges().len() && (#[trigger] old(self).vm_ranges()[i]).start
                    == start_vpn && (forall|j: int|
                    0 <= j < i ==> (#[trigger] old(self).vm_ranges()[j]).start != start_vpn) ==> {
                    &&& final(self).vm_areas@ == old(self).vm_areas@.remove(i)
                    &&& final(self).mmap_areas == old(self).mmap_areas
                    &&& final(self).heap_areas == old(self).heap_areas
                    &&& final(self).brk == old(self).brk
                    &&& final(self).brk_start == old(self).brk_start
                    &&& forall|v: VirtPageNum|
                        old(self).vm_ranges()[i].spec_contains(v) ==> !final(self).pt().dom().contains(v)
                    &&& forall|v: VirtPageNum|
                        !old(self).vm_ranges()[i].spec_contains(v) ==> #[trigger] final(self).pt().dom().contains(v) == old(self).pt().dom().contains(v)
                    &&& forall|v: VirtPageNum|
                        !old(self).vm_ranges()[i].spec_contains(v) && old(self).pt().dom().contains(
                            v,
                        ) ==> #[trigger] final(self).pt()[v] == old(self).pt()[v]
                    &&& (old(self).vm_areas@[i].map_type is Framed ==> forall|v: VirtPageNum|
                        old(self).vm_ranges()[i].spec_contains(v) ==> final(a).count(
                            (#[trigger] old(self).pt()[v]).ppn,
                        ) == old(a).count(old(self).pt()[v].ppn) - 1)
                    &&& forall|p: PhysPageNum|
                        (forall|v: VirtPageNum|
                            old(self).vm_ranges()[i].spec_contains(v) ==> (#[trigger] old(self).pt()[v]).ppn != p) ==> #[trigger] final(a).count(p) == old(a).count(
                            p,
                        )
                },
    {
        let n = self.vm_areas.len();
        let mut i: usize = 0;
        while i < n
            invariant
                i <= n,
                n == self.vm_areas@.len(),
                *self == *old(self),
                *a == *old(a),
                old(self).wf(),
                old(self).counts_held(*old(a)),
                old(a).wf(),
                forall|j: int|
                    0 <= j < i ==> (#[trigger] self.vm_areas@[j]).vpn_range.start != start_vpn,
            decreases n - i,
        {
            if self.vm_areas[i].vpn_range.get_start().0 == start_vpn.0 {
                proof {
                    assert(old(self).vm_ranges()[i as int].start == start_vpn);
                    assert(forall|j: int|
                        0 <= j < i ==> (#[trigger] old(self).vm_ranges()[j]).start != start_vpn);
                }
                self.remove_vm_area_at(i, a);
                return ;
            }
            i += 1;
        }
        proof {
            assert(forall|j: int|
                0 <= j < old(self).vm_ranges().len() ==> (#[trigger] old(self).vm_ranges()[j]).start
                    != start_vpn);
        }
    }

    /// Drop every contiguous region: unmap their pages and release their
    /// frames. The mmap regions, the heap and the page table itself stay;
    /// this reclaims the data and code of an exiting process while the
    /// table is still walked by its parent.
    pub fn recycle_data_pages(&mut self, a: &mut StackFrameAllocator)
        requires
            old(self).wf(),
            old(self).counts_held(*old(a)),
            old(a).wf(),
        ensures
            final(self).wf(),
            final(self).counts_held(*final(a)),
            final(self).vm_areas@.len() == 0,
            final(self).mmap_areas == old(self).mmap_areas,
            final(self).heap_areas == old(self).heap_areas,
            final(self).brk == old(self).brk && final(self).brk_start == old(self).brk_start,
            final(self).page_table.node_ppns() == old(self).page_table.node_ppns(),
            final(a).wf(),
            final(a).spec_base() == old(a).spec_base(),
            final(a).spec_end() == old(a).spec_end(),
            forall|p: PhysPageNum|
                old(a).manages(p) ==> #[trigger] final(a).page(p) == old(a).page(p),
            // pages of the dropped regions are gone, the rest is untouched
            forall|i: int, v: VirtPageNum|
                0 <= i < old(self).vm_ranges().len() && (#[trigger] old(self).vm_ranges()[i]).spec_contains(v) ==> !(#[trigger] final(self).pt().dom().contains(
                    v,
                )),
            forall|v: VirtPageNum|
                (forall|i: int|
                    0 <= i < old(self).vm_ranges().len() ==> !(#[trigger] old(self).vm_ranges()[i]).spec_contains(v)) ==> #[trigger] final(self).pt().dom().contains(
                    v,
                ) == old(self).pt().dom().contains(v) && (old(self).pt().dom().contains(v)
                    ==> final(self).pt()[v] == old(self).pt()[v]),
            // each framed region's frames lost exactly one reference
            forall|i: int, v: VirtPageNum|
                0 <= i < old(self).vm_areas@.len() && (#[trigger] old(self).vm_areas@[i]).map_type is Framed && old(self).vm_areas@[i].vpn_range.spec_contains(
                    v,
                ) ==> final(a).count((#[trigger] old(self).pt()[v]).ppn) == old(a).count(
                    old(self).pt()[v].ppn,
                ) - 1,
            forall|p: PhysPageNum|
                (forall|i: int, v: VirtPageNum|
                    0 <= i < old(self).vm_areas@.len() && (#[trigger] old(self).vm_areas@[i]).map_type is Framed && old(self).vm_areas@[i].vpn_range.spec_contains(
                        v,
                    ) ==> (#[trigger] old(self).pt()[v]).ppn != p) ==> #[trigger] final(a).count(p)
                    == old(a).count(p),
    {
        while self.vm_areas.len() > 0
            invariant
                old(self).wf(),
                old(self).counts_held(*old(a)),
                old(a).wf(),
                self.wf(),
                self.counts_held(*a),
                a.wf(),
                a.spec_base() == old(a).spec_base(),
                a.spec_end() == old(a).spec_end(),
                self.vm_areas@.len() <= old(self).vm_areas@.len(),
                self.vm_areas@ == old(self).vm_areas@.take(self.vm_areas@.len() as int),
                self.mmap_areas == old(self).mmap_areas,
                self.heap_areas == old(self).heap_areas,
                self.brk == old(self).brk && self.brk_start == old(self).brk_start,
                self.page_table.node_ppns() == old(self).page_table.node_ppns(),
                forall|p: PhysPageNum|
                    old(a).manages(p) ==> #[trigger] a.page(p) == old(a).page(p),
                forall|i: int, v: VirtPageNum|
                    self.vm_areas@.len() <= i < old(self).vm_ranges().len() && (#[trigger] old(self).vm_ranges()[i]).spec_contains(v) ==> !(#[trigger] self.pt().dom().contains(v)),
                forall|v: VirtPageNum|
                    (forall|i: int|
                        self.vm_areas@.len() <= i < old(self).vm_ranges().len() ==> !(
                        #[trigger] old(self).vm_ranges()[i]).spec_contains(v))
                        ==> #[trigger] self.pt().dom().contains(v) == old(self).pt().dom().contains(v) && (old(self).pt().dom().contains(v) ==> self.pt()[v]
                        == old(self).pt()[v]),
                forall|i: int, v: VirtPageNum|
                    self.vm_areas@.len() <= i < old(self).vm_areas@.len() && (#[trigger] old(self).vm_areas@[i]).map_type is Framed && old(self).vm_areas@[i].vpn_range.spec_contains(v) ==> a.count(
                        (#[trigger] old(self).pt()[v]).ppn,
                    ) == old(a).count(old(self).pt()[v].ppn) - 1,
                forall|p: PhysPageNum|
                    (forall|i: int, v: VirtPageNum|
                        self.vm_areas@.len() <= i < old(self).vm_areas@.len() && (#[trigger] old(self).vm_areas@[i]).map_type is Framed && old(self).vm_areas@[i].vpn_range.spec_contains(v) ==> (#[trigger] old(self).pt()[v]).ppn != p) ==> #[trigger] a.count(p) == old(a).count(p),
            decreases self.vm_areas@.len(),
        {
            let ghost m_pre = *self;
            let ghost a_pre = *a;
            let i = self.vm_areas.len() - 1;
            let ghost n = i as int;
            proof {
                assert(self.vm_areas@ == old(self).vm_areas@.take(self.vm_areas@.len() as int));
                assert(old(self).vm_areas@.take(self.vm_areas@.len() as int)[n] == old(self).vm_areas@[n]);
                assert(self.vm_areas@[n] == old(self).vm_areas@[n]);
                assert(m_pre.vm_areas@[n].vpn_range == old(self).vm_ranges()[n]);
            }
            self.remove_vm_area_at(i, a);
            proof {
                let nr = old(self).vm_ranges()[n];
                assert(self.vm_areas@ =~= old(self).vm_areas@.take(n));
                // pages of range n are mapped in m_pre exactly as at entry
                assert forall|v: VirtPageNum| nr.spec_contains(v) implies m_pre.pt()[v] == old(self).pt()[v] && m_pre.pt().dom().contains(v) by {
                    assert forall|i2: int|
                        n + 1 <= i2 < old(self).vm_ranges().len() implies !(#[trigger] old(self).vm_ranges()[i2]).spec_contains(v) by {
                        assert(old(self).all_ranges()[n] == old(self).vm_ranges()[n]);
                        assert(old(self).all_ranges()[i2] == old(self).vm_ranges()[i2]);
                        assert(ranges_disjoint(
                            old(self).all_ranges()[n],
                            old(self).all_ranges()[i2],
                        ));
                    };
                    assert(m_pre.vm_areas@[n].mapped_in(m_pre.page_table));
                    let k = v.0 - nr.start.0;
                    assert(vpn_at(nr, k as int) == v);
                };
                // count bookkeeping composes across the removals
                assert forall|i2: int, v: VirtPageNum|
                    n <= i2 < old(self).vm_areas@.len() && (#[trigger] old(self).vm_areas@[i2]).map_type is Framed && old(self).vm_areas@[i2].vpn_range.spec_contains(v) implies a.count(
                    (#[trigger] old(self).pt()[v]).ppn,
                ) == old(a).count(old(self).pt()[v].ppn) - 1 by {
                    if i2 == n {
                        assert(m_pre.vm_areas@[n].map_type is Framed);
                        assert(a.count(m_pre.pt()[v].ppn) == a_pre.count(m_pre.pt()[v].ppn) - 1);
                        // not yet touched by the earlier removals
                        assert forall|i3: int, v3: VirtPageNum|
                            n + 1 <= i3 < old(self).vm_areas@.len() && (#[trigger] old(self).vm_areas@[i3]).map_type is Framed && old(self).vm_areas@[i3].vpn_range.spec_contains(v3) implies (#[trigger] old(self).pt()[v3]).ppn != old(self).pt()[v].ppn by {
                            assert(old(self).owned_vpn(v3)) by {
                                assert(0 <= i3 < old(self).vm_areas@.len() && (#[trigger] old(self).vm_areas@[i3]).map_type is Framed && old(self).vm_areas@[i3].vpn_range.spec_contains(v3));
                            };
                            assert(old(self).owned_vpn(v)) by {
                                assert(0 <= n < old(self).vm_areas@.len() && (#[trigger] old(self).vm_areas@[n]).map_type is Framed && old(self).vm_areas@[n].vpn_range.spec_contains(v));
                            };
                            assert(old(self).all_ranges()[n] == old(self).vm_ranges()[n]);
                            assert(old(self).all_ranges()[i3] == old(self).vm_ranges()[i3]);
                            assert(ranges_disjoint(
                                old(self).all_ranges()[n],
                                old(self).all_ranges()[i3],
                            ));
                            assert(v3 != v);
                        };
                        assert(a_pre.count(old(self).pt()[v].ppn) == old(a).count(
                            old(self).pt()[v].ppn,
                        ));
                    } else if m_pre.vm_areas@[n].map_type is Identical {
                        assert(a.count(old(self).pt()[v].ppn) == a_pre.count(
                            old(self).pt()[v].ppn,
                        ));
                    } else {
                        assert forall|v2: VirtPageNum| nr.spec_contains(v2) implies (
                        #[trigger] m_pre.pt()[v2]).ppn != old(self).pt()[v].ppn by {
                            assert(old(self).owned_vpn(v2)) by {
                                assert(0 <= n < old(self).vm_areas@.len() && (#[trigger] old(self).vm_areas@[n]).map_type is Framed && old(self).vm_areas@[n].vpn_range.spec_contains(v2));
                            };
                            assert(old(self).owned_vpn(v)) by {
                                assert(0 <= i2 < old(self).vm_areas@.len() && (#[trigger] old(self).vm_areas@[i2]).map_type is Framed && old(self).vm_areas@[i2].vpn_range.spec_contains(v));
                            };
                            assert(old(self).all_ranges()[n] == old(self).vm_ranges()[n]);
                            assert(old(self).all_ranges()[i2] == old(self).vm_ranges()[i2]);
                            assert(ranges_disjoint(
                                old(self).all_ranges()[n],
                                old(self).all_ranges()[i2],
                            ));
                            assert(v2 != v);
                            assert(m_pre.pt()[v2] == old(self).pt()[v2]);
                        };
                        assert(a.count(old(self).pt()[v].ppn) == a_pre.count(
                            old(self).pt()[v].ppn,
                        ));
                    }
                };
                assert forall|p: PhysPageNum|
                    (forall|i2: int, v: VirtPageNum|
                        n <= i2 < old(self).vm_areas@.len() && (#[trigger] old(self).vm_areas@[i2]).map_type is Framed && old(self).vm_areas@[i2].vpn_range.spec_contains(v) ==> (#[trigger] old(self).pt()[v]).ppn != p) implies #[trigger] a.count(p) == old(a).count(p) by {
                    if m_pre.vm_areas@[n].map_type is Identical {
                        assert(a.count(p) == a_pre.count(p));
                    } else {
                        assert forall|v2: VirtPageNum| nr.spec_contains(v2) implies (
                        #[trigger] m_pre.pt()[v2]).ppn != p by {
                            assert(0 <= n < old(self).vm_areas@.len() && old(self).vm_areas@[n].map_type is Framed && old(self).vm_areas@[n].vpn_range.spec_contains(v2));
                            assert(m_pre.pt()[v2] == old(self).pt()[v2]);
                        };
                        assert(a.count(p) == a_pre.count(p));
                    }
                };
            }
        }
    }

    /// Remove the sparse region at index `i`: unmap its resident pages,
    /// release their frames, and drop the region.
    fn remove_mmap_area_at(&mut self, i: usize, a: &mut StackFrameAllocator)
        requires
            old(self).wf(),
            old(self).counts_held(*old(a)),
            old(a).wf(),
            i < old(self).mmap_areas@.len(),
        ensures
            final(self).wf(),
            final(self).counts_held(*final(a)),
            final(self).mmap_areas@ == old(self).mmap_areas@.remove(i as int),
            final(self).vm_areas == old(self).vm_areas,
            final(self).heap_areas == old(self).heap_areas,
            final(self).brk == old(self).brk && final(self).brk_start == old(self).brk_start,
            final(self).page_table.node_ppns() == old(self).page_table.node_ppns(),
            final(a).wf(),
            final(a).spec_base() == old(a).spec_base(),
            final(a).spec_end() == old(a).spec_end(),
            forall|p: PhysPageNum|
                old(a).manages(p) ==> #[trigger] final(a).page(p) == old(a).page(p),
            // the resident pages are gone, the rest is untouched
            forall|v: VirtPageNum|
                old(self).mmap_areas@[i as int].resident(v) ==> !final(self).pt().dom().contains(v),
            forall|v: VirtPageNum|
                !old(self).mmap_areas@[i as int].resident(v) ==> #[trigger] final(self).pt().dom().contains(
                    v,
                ) == old(self).pt().dom().contains(v),
            forall|v: VirtPageNum|
                !old(self).mmap_areas@[i as int].resident(v) && old(self).pt().dom().contains(v)
                    ==> #[trigger] final(self).pt()[v] == old(self).pt()[v],
            // each resident frame lost exactly one reference
            forall|v: VirtPageNum|
                old(self).mmap_areas@[i as int].resident(v) ==> final(a).count(
                    (#[trigger] old(self).pt()[v]).ppn,
                ) == old(a).count(old(self).pt()[v].ppn) - 1,
            forall|p: PhysPageNum|
                (forall|v: VirtPageNum|
                    old(self).mmap_areas@[i as int].resident(v) ==> (#[trigger] old(self).pt()[v]).ppn != p) ==> #[trigger] final(a).count(p) == old(a).count(p),
    {
        let ghost a0 = *a;
        let ghost m0 = *self;
        let ghost ch0 = old(self).mmap_areas@[i as int];
        let chunk_ref = &mut self.mmap_areas[i];
        chunk_ref.unmap(&mut self.page_table, a);
        self.mmap_areas.remove(i);
        proof {
            let nvm0 = m0.vm_areas@.len() as int;
            let nmm0 = m0.mmap_areas@.len() as int;
            // translate table-indexed effects into per-page form
            assert forall|v: VirtPageNum| ch0.resident(v) implies !self.pt().dom().contains(v)
                && a.count((#[trigger] m0.pt()[v]).ppn) == a0.count(m0.pt()[v].ppn) - 1 by {
                let k = choose|k: int| 0 <= k < ch0.vpn_table@.len() && ch0.vpn_table@[k] == v;
                assert(ch0.mapped_in(m0.page_table));
                assert(m0.pt()[v].ppn == ch0.data_frames@[k].ppn);
            };
            assert forall|p: PhysPageNum|
                (forall|v: VirtPageNum|
                    ch0.resident(v) ==> (#[trigger] m0.pt()[v]).ppn != p) implies #[trigger] a.count(
                p,
            ) == a0.count(p) by {
                assert forall|k: int| 0 <= k < ch0.data_frames@.len() implies (
                #[trigger] ch0.data_frames@[k]).ppn != p by {
                    let v = ch0.vpn_table@[k];
                    assert(ch0.resident(v));
                    assert(m0.pt()[v].ppn == ch0.data_frames@[k].ppn);
                };
            };
            // remaining regions keep their mappings and their frames: a
            // resident page of the removed chunk lies in its range, which
            // is disjoint from every other region
            assert forall|j: int|
                0 <= j < self.vm_areas@.len() implies (#[trigger] self.vm_areas@[j]).mapped_in(
                self.page_table,
            ) && self.vm_areas@[j].counts_held(*a) by {
                let other = m0.vm_areas@[j];
                assert(self.vm_areas@[j] == other);
                assert(ranges_disjoint(m0.all_ranges()[j], m0.all_ranges()[nvm0 + i as int]));
                assert(other.mapped_in(m0.page_table));
                assert forall|k: int|
                    0 <= k < other.vpn_range.spec_len() implies self.pt().dom().contains(
                    #[trigger] vpn_at(other.vpn_range, k),
                ) && self.pt()[vpn_at(other.vpn_range, k)] == m0.pt()[vpn_at(other.vpn_range, k)] by {
                    let v = vpn_at(other.vpn_range, k);
                    assert(other.vpn_range.spec_contains(v));
                    assert forall|k2: int|
                        0 <= k2 < ch0.vpn_table@.len() implies (#[trigger] ch0.vpn_table@[k2])
                            != v by {
                        assert(ch0.vpn_range.spec_contains(ch0.vpn_table@[k2]));
                    };
                    assert(!ch0.resident(v));
                };
                if other.map_type is Framed {
                    assert forall|k: int|
                        0 <= k < other.data_frames@.len() implies a.count(
                        (#[trigger] other.data_frames@[k]).ppn,
                    ) >= 1 && a.manages(other.data_frames@[k].ppn) by {
                        let v = vpn_at(other.vpn_range, k);
                        assert(other.vpn_range.spec_contains(v));
                        assert(m0.pt()[v].ppn == other.data_frames@[k].ppn);
                        assert(m0.owned_vpn(v)) by {
                            assert(m0.vm_areas@[j].map_type is Framed
                                && m0.vm_areas@[j].vpn_range.spec_contains(v));
                        };
                        assert forall|kk: int| 0 <= kk < ch0.data_frames@.len() implies (
                        #[trigger] ch0.data_frames@[kk]).ppn != other.data_frames@[k].ppn by {
                            let v2 = ch0.vpn_table@[kk];
                            assert(ch0.resident(v2));
                            assert(m0.pt()[v2].ppn == ch0.data_frames@[kk].ppn);
                            assert(m0.owned_vpn(v2)) by {
                                assert(0 <= (i as int) < m0.mmap_areas@.len() && (
                                #[trigger] m0.mmap_areas@[i as int]).resident(v2));
                            };
                            assert(ch0.vpn_range.spec_contains(v2));
                            assert(v2 != v);
                        };
                        assert(a.count(other.data_frames@[k].ppn) == a0.count(
                            other.data_frames@[k].ppn,
                        ));
                    };
                }
            };
            assert forall|j: int|
                0 <= j < self.mmap_areas@.len() implies (#[trigger] self.mmap_areas@[j]).mapped_in(
                self.page_table,
            ) && self.mmap_areas@[j].counts_held(*a) by {
                let j0: int = if j < i as int { j } else { j + 1 };
                let other = m0.mmap_areas@[j0];
                assert(self.mmap_areas@[j] == other);
                assert(ranges_disjoint(m0.all_ranges()[nvm0 + (if j0 < i as int { j0 } else { i as int })],
                    m0.all_ranges()[nvm0 + (if j0 < i as int { i as int } else { j0 })]));
                assert(other.mapped_in(m0.page_table));
                assert forall|k: int|
                    0 <= k < other.vpn_table@.len() implies self.pt().dom().contains(
                    #[trigger] other.vpn_table@[k],
                ) && self.pt()[other.vpn_table@[k]] == m0.pt()[other.vpn_table@[k]] && a.count(
                    other.data_frames@[k].ppn,
                ) >= 1 && a.manages(other.data_frames@[k].ppn) by {
                    let v = other.vpn_table@[k];
                    assert(other.vpn_range.spec_contains(v));
                    assert forall|k2: int|
                        0 <= k2 < ch0.vpn_table@.len() implies (#[trigger] ch0.vpn_table@[k2])
                            != v by {
                        assert(ch0.vpn_range.spec_contains(ch0.vpn_table@[k2]));
                    };
                    assert(!ch0.resident(v));
                    assert(m0.pt()[v].ppn == other.data_frames@[k].ppn);
                    assert(m0.owned_vpn(v)) by {
                        assert(0 <= j0 < m0.mmap_areas@.len() && (#[trigger] m0.mmap_areas@[j0]).resident(
                            v,
                        ));
                    };
                    assert forall|kk: int| 0 <= kk < ch0.data_frames@.len() implies (
                    #[trigger] ch0.data_frames@[kk]).ppn != other.data_frames@[k].ppn by {
                        let v2 = ch0.vpn_table@[kk];
                        assert(ch0.resident(v2));
                        assert(m0.pt()[v2].ppn == ch0.data_frames@[kk].ppn);
                        assert(m0.owned_vpn(v2)) by {
                            assert(0 <= (i as int) < m0.mmap_areas@.len() && (
                            #[trigger] m0.mmap_areas@[i as int]).resident(v2));
                        };
                        assert(ch0.vpn_range.spec_contains(v2));
                        assert(v2 != v);
                    };
                    assert(a.count(other.data_frames@[k].ppn) == a0.count(
                        other.data_frames@[k].ppn,
                    ));
                };
                assert forall|k: int| 0 <= k < other.data_frames@.len() implies a.count(
                    (#[trigger] other.data_frames@[k]).ppn,
                ) >= 1 && a.manages(other.data_frames@[k].ppn) by {
                    assert(self.pt().dom().contains(other.vpn_table@[k]));
                };
            };
            assert(self.heap_areas.mapped_in(self.page_table) && self.heap_areas.counts_held(*a))
                by {
                let other = m0.heap_areas;
                assert(ranges_disjoint(m0.all_ranges()[nvm0 + i as int], m0.all_ranges()[m0.all_ranges().len()
                    - 1]));
                assert(other.mapped_in(m0.page_table));
                assert forall|k: int|
                    0 <= k < other.vpn_table@.len() implies self.pt().dom().contains(
                    #[trigger] other.vpn_table@[k],
                ) && self.pt()[other.vpn_table@[k]] == m0.pt()[other.vpn_table@[k]] && a.count(
                    other.data_frames@[k].ppn,
                ) >= 1 && a.manages(other.data_frames@[k].ppn) by {
                    let v = other.vpn_table@[k];
                    assert(other.vpn_range.spec_contains(v));
                    assert forall|k2: int|
                        0 <= k2 < ch0.vpn_table@.len() implies (#[trigger] ch0.vpn_table@[k2])
                            != v by {
                        assert(ch0.vpn_range.spec_contains(ch0.vpn_table@[k2]));
                    };
                    assert(!ch0.resident(v));
                    assert(m0.pt()[v].ppn == other.data_frames@[k].ppn);
                    assert(m0.owned_vpn(v)) by {
                        assert(m0.heap_areas.resident(v));
                    };
                    assert forall|kk: int| 0 <= kk < ch0.data_frames@.len() implies (
                    #[trigger] ch0.data_frames@[kk]).ppn != other.data_frames@[k].ppn by {
                        let v2 = ch0.vpn_table@[kk];
                        assert(ch0.resident(v2));
                        assert(m0.pt()[v2].ppn == ch0.data_frames@[kk].ppn);
                        assert(m0.owned_vpn(v2)) by {
                            assert(0 <= (i as int) < m0.mmap_areas@.len() && (
                            #[trigger] m0.mmap_areas@[i as int]).resident(v2));
                        };
                        assert(ch0.vpn_range.spec_contains(v2));
                        assert(v2 != v);
                    };
                    assert(a.count(other.data_frames@[k].ppn) == a0.count(
                        other.data_frames@[k].ppn,
                    ));
                };
                assert forall|k: int| 0 <= k < other.data_frames@.len() implies a.count(
                    (#[trigger] other.data_frames@[k]).ppn,
                ) >= 1 && a.manages(other.data_frames@[k].ppn) by {
                    assert(self.pt().dom().contains(other.vpn_table@[k]));
                };
            };
            // page-table nodes stay live
            assert forall|j: int|
                0 <= j < self.page_table.node_ppns().len() implies a.count(
                #[trigger] self.page_table.node_ppns()[j],
            ) >= 1 && a.manages(self.page_table.node_ppns()[j]) by {
                let q = m0.page_table.node_ppns()[j];
                assert(a0.count(q) >= 1 && a0.manages(q));
                assert forall|k: int| 0 <= k < ch0.data_frames@.len() implies (
                #[trigger] ch0.data_frames@[k]).ppn != q by {
                    let v2 = ch0.vpn_table@[k];
                    assert(ch0.resident(v2));
                    assert(m0.pt()[v2].ppn == ch0.data_frames@[k].ppn);
                    assert(m0.owned_vpn(v2)) by {
                        assert(0 <= (i as int) < m0.mmap_areas@.len() && (#[trigger] m0.mmap_areas@[i as int]).resident(
                            v2,
                        ));
                    };
                    assert(m0.page_table.node_ppns()[j] != m0.pt()[v2].ppn);
                };
                assert(a.count(q) == a0.count(q));
            };
            // region disjointness after dropping one slot
            assert forall|i2: int, j2: int|
                0 <= i2 < j2 < self.all_ranges().len() implies ranges_disjoint(
                #[trigger] self.all_ranges()[i2],
                #[trigger] self.all_ranges()[j2],
            ) by {
                let i1: int = if i2 < nvm0 + i as int { i2 } else { i2 + 1 };
                let j1: int = if j2 < nvm0 + i as int { j2 } else { j2 + 1 };
                assert(self.all_ranges()[i2] == m0.all_ranges()[i1]);
                assert(self.all_ranges()[j2] == m0.all_ranges()[j1]);
                assert(ranges_disjoint(m0.all_ranges()[i1], m0.all_ranges()[j1]));
            };
            // ownership only shrank
            assert forall|v: VirtPageNum| #[trigger] self.owned_vpn(v) implies m0.owned_vpn(v)
                && !ch0.resident(v) by {
                if exists|j: int|
                    0 <= j < self.vm_areas@.len() && (#[trigger] self.vm_areas@[j]).map_type is Framed
                        && self.vm_areas@[j].vpn_range.spec_contains(v) {
                    let j = choose|j: int|
                        0 <= j < self.vm_areas@.len() && (#[trigger] self.vm_areas@[j]).map_type is Framed
                            && self.vm_areas@[j].vpn_range.spec_contains(v);
                    assert(m0.owned_vpn(v)) by {
                        assert(m0.vm_areas@[j].map_type is Framed
                            && m0.vm_areas@[j].vpn_range.spec_contains(v));
                    };
                    assert(ranges_disjoint(m0.all_ranges()[j], m0.all_ranges()[nvm0 + i as int]));
                    assert forall|k2: int|
                        0 <= k2 < ch0.vpn_table@.len() implies (#[trigger] ch0.vpn_table@[k2])
                            != v by {
                        assert(ch0.vpn_range.spec_contains(ch0.vpn_table@[k2]));
                    };
                } else if exists|j: int|
                    0 <= j < self.mmap_areas@.len() && (#[trigger] self.mmap_areas@[j]).resident(v) {
                    let j = choose|j: int|
                        0 <= j < self.mmap_areas@.len() && (#[trigger] self.mmap_areas@[j]).resident(
                        v);
                    let j0: int = if j < i as int { j } else { j + 1 };
                    assert(m0.mmap_areas@[j0] == self.mmap_areas@[j]);
                    assert(m0.owned_vpn(v)) by {
                        assert(0 <= j0 < m0.mmap_areas@.len() && (#[trigger] m0.mmap_areas@[j0]).resident(
                            v,
                        ));
                    };
                    assert(m0.mmap_areas@[j0].vpn_range.spec_contains(v));
                    assert(ranges_disjoint(m0.all_ranges()[nvm0 + (if j0 < i as int { j0 } else { i as int })],
                        m0.all_ranges()[nvm0 + (if j0 < i as int { i as int } else { j0 })]));
                    assert forall|k2: int|
                        0 <= k2 < ch0.vpn_table@.len() implies (#[trigger] ch0.vpn_table@[k2])
                            != v by {
                        assert(ch0.vpn_range.spec_contains(ch0.vpn_table@[k2]));
                    };
                } else {
                    assert(self.heap_areas.resident(v));
                    assert(m0.owned_vpn(v));
                    assert(m0.heap_areas.vpn_range.spec_contains(v));
                    assert(ranges_disjoint(m0.all_ranges()[nvm0 + i as int], m0.all_ranges()[m0.all_ranges().len() - 1]));
                    assert forall|k2: int|
                        0 <= k2 < ch0.vpn_table@.len() implies (#[trigger] ch0.vpn_table@[k2])
                            != v by {
                        assert(ch0.vpn_range.spec_contains(ch0.vpn_table@[k2]));
                    };
                }
            };
            assert forall|v: VirtPageNum|
                self.pt().dom().contains(v) && (#[trigger] self.pt()[v]).flags.cow implies self.owned_vpn(
                v,
            ) by {
                if ch0.resident(v) {
                    assert(!self.pt().dom().contains(v));
                } else {
                    assert(self.pt()[v] == m0.pt()[v]);
                    assert(m0.owned_vpn(v));
                    if exists|j: int|
                        0 <= j < m0.mmap_areas@.len() && (#[trigger] m0.mmap_areas@[j]).resident(v) {
                        let j0 = choose|j: int|
                            0 <= j < m0.mmap_areas@.len() && (#[trigger] m0.mmap_areas@[j]).resident(
                            v);
                        if j0 == i as int {
                            assert(false);
                        } else {
                            let j: int = if j0 < i as int { j0 } else { j0 - 1 };
                            assert(self.mmap_areas@[j] == m0.mmap_areas@[j0]);
                            assert(self.owned_vpn(v)) by {
                                assert(0 <= j < self.mmap_areas@.len() && (
                                #[trigger] self.mmap_areas@[j]).resident(v));
                            };
                        }
                    }
                }
            };
            assert forall|v1: VirtPageNum, v2: VirtPageNum|
                self.owned_vpn(v1) && self.owned_vpn(v2) && v1 != v2 implies (
            #[trigger] self.pt()[v1]).ppn != (#[trigger] self.pt()[v2]).ppn by {
                assert(m0.owned_vpn(v1) && !ch0.resident(v1));
                assert(m0.owned_vpn(v2) && !ch0.resident(v2));
                lemma_owned_count(m0, a0, v1);
                lemma_owned_count(m0, a0, v2);
                assert(self.pt()[v1] == m0.pt()[v1]);
                assert(self.pt()[v2] == m0.pt()[v2]);
            };
            assert forall|j: int, v: VirtPageNum|
                0 <= j < self.page_table.node_ppns().len() && self.owned_vpn(v) implies (
            #[trigger] self.page_table.node_ppns()[j]) != (#[trigger] self.pt()[v]).ppn by {
                assert(m0.owned_vpn(v) && !ch0.resident(v));
                lemma_owned_count(m0, a0, v);
                assert(self.pt()[v] == m0.pt()[v]);
                assert(self.page_table.node_ppns()[j] == m0.page_table.node_ppns()[j]);
            };
        }
    }

    /// Remove the mmap region whose declared range starts at `start_vpn`,
    /// if any: unmap its resident pages and release their frames. Without
    /// a matching region nothing changes.
    pub fn remove_mmap_area_with_start_vpn(
        &mut self,
        start_vpn: VirtPageNum,
        a: &mut StackFrameAllocator,
    )
        requires
            old(self).wf(),
            old(self).counts_held(*old(a)),
            old(a).wf(),
        ensures
            final(self).wf(),
            final(self).counts_held(*final(a)),
            final(a).wf(),
            final(a).spec_base() == old(a).spec_base(),
            final(a).spec_end() == old(a).spec_end(),
            forall|p: PhysPageNum|
                old(a).manages(p) ==> #[trigger] final(a).page(p) == old(a).page(p),
            (forall|i: int|
                0 <= i < old(self).mmap_ranges().len() ==> (#[trigger] old(self).mmap_ranges()[i]).start != start_vpn) ==> *final(self) == *old(self) && *final(a)
                == *old(a),
            forall|i: int|
                0 <= i < old(self).mmap_ranges().len() && (#[trigger] old(self).mmap_ranges()[i]).start == start_vpn && (forall|j: int|
                    0 <= j < i ==> (#[trigger] old(self).mmap_ranges()[j]).start != start_vpn)
                    ==> {
                    &&& final(self).mmap_areas@ == old(self).mmap_areas@.remove(i)
                    &&& final(self).vm_areas == old(self).vm_areas
                    &&& final(self).heap_areas == old(self).heap_areas
                    &&& forall|v: VirtPageNum|
                        old(self).mmap_areas@[i].resident(v) ==> !final(self).pt().dom().contains(
                            v,
                        )
                    &&& forall|v: VirtPageNum|
                        !old(self).mmap_areas@[i].resident(v) ==> #[trigger] final(self).pt().dom().contains(v) == old(self).pt().dom().contains(v)
                    &&& forall|v: VirtPageNum|
                        old(self).mmap_areas@[i].resident(v) ==> final(a).count(
                            (#[trigger] old(self).pt()[v]).ppn,
                        ) == old(a).count(old(self).pt()[v].ppn) - 1
                    &&& forall|p: PhysPageNum|
                        (forall|v: VirtPageNum|
                            old(self).mmap_areas@[i].resident(v) ==> (#[trigger] old(self).pt()[v]).ppn != p) ==> #[trigger] final(a).count(p) == old(a).count(
                            p,
                        )
                },
    {
        let n = self.mmap_areas.len();
        let mut i: usize = 0;
        while i < n
            invariant
                i <= n,
                n == self.mmap_areas@.len(),
                *self == *old(self),
                *a == *old(a),
                old(self).wf(),
                old(self).counts_held(*old(a)),
                old(a).wf(),
                forall|j: int|
                    0 <= j < i ==> (#[trigger] self.mmap_areas@[j]).vpn_range.start != start_vpn,
            decreases n - i,
        {
            if self.mmap_areas[i].vpn_range.get_start().0 == start_vpn.0 {
                proof {
                    assert(old(self).mmap_ranges()[i as int].start == start_vpn);
                    assert(forall|j: int|
                        0 <= j < i ==> (#[trigger] old(self).mmap_ranges()[j]).start != start_vpn);
                }
                self.remove_mmap_area_at(i, a);
                return ;
            }
            i += 1;
        }
        proof {
            assert(forall|j: int|
                0 <= j < old(self).mmap_ranges().len() ==> (#[trigger] old(self).mmap_ranges()[j]).start != start_vpn);
        }
    }

    /// Lazily allocate one heap page: the fault resolver found `vpn`
    /// unmapped inside the declared heap. A zeroed frame is mapped with
    /// the heap's permission and recorded as resident.
    pub fn lazy_alloc_heap(&mut self, vpn: VirtPageNum, a: &mut StackFrameAllocator) -> (r: isize)
        requires
            old(self).wf(),
            old(self).counts_held(*old(a)),
            old(a).wf(),
            old(a).free_frames() >= 3,
            old(self).heap_range().spec_contains(vpn),
            !old(self).pt().dom().contains(vpn),
        ensures
            r == 0,
            final(self).wf(),
            final(self).counts_held(*final(a)),
            final(self).vm_areas == old(self).vm_areas,
            final(self).mmap_areas == old(self).mmap_areas,
            final(self).heap_range() == old(self).heap_range(),
            final(self).heap_areas.vpn_table@ == old(self).heap_areas.vpn_table@.push(vpn),
            final(self).brk == old(self).brk && final(self).brk_start == old(self).brk_start,
            final(a).wf(),
            final(a).spec_base() == old(a).spec_base(),
            final(a).spec_end() == old(a).spec_end(),
            final(a).free_frames() >= old(a).free_frames() - 3,
            // one fresh zeroed page appears; nothing else moves
            final(self).pt().dom().contains(vpn),
            final(self).pt()[vpn].flags == perm_flags(old(self).heap_areas.map_perm),
            !old(a).has_ref(final(self).pt()[vpn].ppn),
            final(a).count(final(self).pt()[vpn].ppn) == 1,
            final(a).page(final(self).pt()[vpn].ppn) == zero_page(),
            forall|v: VirtPageNum|
                v != vpn ==> #[trigger] final(self).pt().dom().contains(v) == old(self).pt().dom().contains(v),
            forall|v: VirtPageNum|
                v != vpn && old(self).pt().dom().contains(v) ==> #[trigger] final(self).pt()[v]
                    == old(self).pt()[v],
            forall|p: PhysPageNum|
                old(a).has_ref(p) ==> #[trigger] final(a).count(p) == old(a).count(p),
            forall|p: PhysPageNum|
                old(a).manages(p) && old(a).has_ref(p) ==> #[trigger] final(a).page(p) == old(a).page(p),
    {
        let ghost a0 = *a;
        let ghost m0 = *self;
        proof {
            assert(!self.heap_areas.resident(vpn)) by {
                if self.heap_areas.resident(vpn) {
                    let k = choose|k: int|
                        0 <= k < self.heap_areas.vpn_table@.len() && self.heap_areas.vpn_table@[k]
                            == vpn;
                    assert(self.pt().dom().contains(vpn));
                }
            };
        }
        self.heap_areas.push_vpn(vpn, &mut self.page_table, a);
        proof {
            lemma_wf_after_chunk_page(m0, *self, a0, *a, m0.mmap_areas@.len() as int, vpn);
        }
        0
    }

    /// Lazily map one page of an mmap region: find the first declared
    /// region containing `stval` and fault one zeroed page in. Returns 0
    /// on success and -1 when no mmap region contains the address.
    pub fn lazy_mmap(&mut self, stval: VirtAddr, a: &mut StackFrameAllocator) -> (r: isize)
        requires
            old(self).wf(),
            old(self).counts_held(*old(a)),
            old(a).wf(),
            old(a).free_frames() >= 3,
            !old(self).pt().dom().contains(VirtPageNum(stval.0 / PAGE_SIZE)),
        ensures
            final(a).wf(),
            final(a).spec_base() == old(a).spec_base(),
            final(a).spec_end() == old(a).spec_end(),
            final(self).wf(),
            final(self).counts_held(*final(a)),
            (forall|i: int|
                0 <= i < old(self).mmap_ranges().len() ==> !(#[trigger] old(self).mmap_ranges()[i]).spec_contains(VirtPageNum(stval.0 / PAGE_SIZE))) ==> r == -1
                && *final(self) == *old(self) && *final(a) == *old(a),
            // summary of a successful lazy map, independent of which
            // region it landed in
            (exists|i: int|
                0 <= i < old(self).mmap_ranges().len() && (#[trigger] old(self).mmap_ranges()[i]).spec_contains(VirtPageNum(stval.0 / PAGE_SIZE))) ==> {
                let vpn = VirtPageNum(stval.0 / PAGE_SIZE);
                &&& r == 0
                &&& final(self).pt().dom().contains(vpn)
                &&& !old(a).has_ref(final(self).pt()[vpn].ppn)
                &&& final(a).count(final(self).pt()[vpn].ppn) == 1
                &&& final(a).page(final(self).pt()[vpn].ppn) == zero_page()
                &&& final(a).free_frames() >= old(a).free_frames() - 3
                &&& (forall|v: VirtPageNum|
                    v != vpn ==> #[trigger] final(self).pt().dom().contains(v) == old(self).pt().dom().contains(v))
                &&& (forall|v: VirtPageNum|
                    v != vpn && old(self).pt().dom().contains(v) ==> #[trigger] final(self).pt()[v] == old(self).pt()[v])
                &&& (forall|p: PhysPageNum|
                    old(a).has_ref(p) ==> #[trigger] final(a).count(p) == old(a).count(p))
                &&& (forall|p: PhysPageNum|
                    old(a).manages(p) && old(a).has_ref(p) ==> #[trigger] final(a).page(p) == old(a).page(p))
            },
            forall|i: int|
                0 <= i < old(self).mmap_ranges().len() && (#[trigger] old(self).mmap_ranges()[i]).spec_contains(VirtPageNum(stval.0 / PAGE_SIZE)) && (forall|j: int|
                    0 <= j < i ==> !(#[trigger] old(self).mmap_ranges()[j]).spec_contains(
                        VirtPageNum(stval.0 / PAGE_SIZE),
                    )) ==> {
                    let vpn = VirtPageNum(stval.0 / PAGE_SIZE);
                    &&& r == 0
                    &&& final(self).vm_areas == old(self).vm_areas
                    &&& final(self).heap_areas == old(self).heap_areas
                    &&& final(self).brk == old(self).brk
                    &&& final(self).brk_start == old(self).brk_start
                    &&& final(self).mmap_areas@[i].vpn_table@ == old(self).mmap_areas@[i].vpn_table@.push(vpn)
                    &&& final(self).pt().dom().contains(vpn)
                    &&& final(self).pt()[vpn].flags == perm_flags(
                        old(self).mmap_areas@[i].map_perm,
                    )
                    &&& !old(a).has_ref(final(self).pt()[vpn].ppn)
                    &&& final(a).count(final(self).pt()[vpn].ppn) == 1
                    &&& final(a).page(final(self).pt()[vpn].ppn) == zero_page()
                    &&& final(a).free_frames() >= old(a).free_frames() - 3
                    &&& forall|v: VirtPageNum|
                        v != vpn ==> #[trigger] final(self).pt().dom().contains(v) == old(self).pt().dom().contains(v)
                    &&& forall|v: VirtPageNum|
                        v != vpn && old(self).pt().dom().contains(v) ==> #[trigger] final(self).pt()[v] == old(self).pt()[v]
                    &&& forall|p: PhysPageNum|
                        old(a).has_ref(p) ==> #[trigger] final(a).count(p) == old(a).count(p)
                    &&& forall|p: PhysPageNum|
                        old(a).manages(p) && old(a).has_ref(p) ==> #[trigger] final(a).page(p)
                            == old(a).page(p)
                },
    {
        let vpn = stval.floor();
        let n = self.mmap_areas.len();
        let mut i: usize = 0;
        while i < n
            invariant
                i <= n,
                n == self.mmap_areas@.len(),
                vpn.0 == stval.0 / PAGE_SIZE,
                *self == *old(self),
                *a == *old(a),
                old(self).wf(),
                old(self).counts_held(*old(a)),
                old(a).wf(),
                old(a).free_frames() >= 3,
                !old(self).pt().dom().contains(vpn),
                forall|j: int|
                    0 <= j < i ==> !(#[trigger] self.mmap_areas@[j]).vpn_range.spec_contains(vpn),
            decreases n - i,
        {
            if self.mmap_areas[i].vpn_range.contains(vpn) {
                let ghost a0 = *a;
                let ghost m0 = *self;
                proof {
                    assert(!self.mmap_areas@[i as int].resident(vpn)) by {
                        if self.mmap_areas@[i as int].resident(vpn) {
                            assert(self.pt().dom().contains(vpn));
                        }
                    };
                }
                let chunk_ref = &mut self.mmap_areas[i];
                chunk_ref.push_vpn(vpn, &mut self.page_table, a);
                proof {
                    lemma_wf_after_chunk_page(m0, *self, a0, *a, i as int, vpn);
                    assert(old(self).mmap_ranges()[i as int].spec_contains(vpn));
                    assert(forall|j: int|
                        0 <= j < i ==> !(#[trigger] old(self).mmap_ranges()[j]).spec_contains(vpn));
                }
                return 0;
            }
            i += 1;
        }
        proof {
            assert(forall|j: int|
                0 <= j < old(self).mmap_ranges().len() ==> !(#[trigger] old(self).mmap_ranges()[j]).spec_contains(vpn));
        }
        -1
    }

    /// Replace the mapping of `vpn` for a copy-on-write break: the entry
    /// leaves `former_ppn` for `ppn`, becoming writable and unmarked.
    fn remap_cow(&mut self, vpn: VirtPageNum, ppn: PhysPageNum, former_ppn: PhysPageNum)
        requires
            old(self).page_table.wf(),
            old(self).pt().dom().contains(vpn),
            old(self).pt()[vpn].ppn == former_ppn,
        ensures
            *final(self) == (MemorySet { page_table: final(self).page_table, ..*old(self) }),
            final(self).page_table.wf(),
            final(self).page_table.spec_root() == old(self).page_table.spec_root(),
            final(self).page_table.node_ppns() == old(self).page_table.node_ppns(),
            final(self).pt() == old(self).pt().insert(
                vpn,
                PageTableEntry {
                    ppn,
                    flags: PTEFlags { w: true, cow: false, ..old(self).pt()[vpn].flags },
                },
            ),
    {
        self.page_table.remap_cow(vpn, ppn, former_ppn);
    }

    /// Resolve a write fault on the copy-on-write page `vpn`, currently
    /// mapped to the shared frame `former_ppn`.
    ///
    /// With reference count 1 the faulting side is the sole owner left:
    /// the entry becomes writable in place and no frame is allocated (the
    /// fast path). With count 2 or more, exactly one fresh frame is
    /// allocated, the old frame's full contents are copied into it, the
    /// entry is remapped, the owning region swaps its handle, and the old
    /// frame's count drops by exactly one, its contents intact for the
    /// remaining owners.
    pub fn cow_alloc(&mut self, vpn: VirtPageNum, former_ppn: PhysPageNum, a: &mut StackFrameAllocator) -> (r:
        isize)
        requires
            old(self).wf(),
            old(self).counts_held(*old(a)),
            old(a).wf(),
            // only a break that copies needs a frame: the fast path
            // allocates nothing, per spec
            old(a).count(former_ppn) >= 2 ==> old(a).free_frames() >= 1,
            old(self).pt().dom().contains(vpn),
            old(self).pt()[vpn].flags.cow,
            old(self).pt()[vpn].ppn == former_ppn,
        ensures
            r == 0,
            final(self).wf(),
            final(self).counts_held(*final(a)),
            final(a).wf(),
            final(a).spec_base() == old(a).spec_base(),
            final(a).spec_end() == old(a).spec_end(),
            // the regions and boundaries are untouched
            final(self).vm_ranges() == old(self).vm_ranges(),
            final(self).mmap_ranges() == old(self).mmap_ranges(),
            final(self).heap_range() == old(self).heap_range(),
            final(self).brk == old(self).brk && final(self).brk_start == old(self).brk_start,
            // the faulting entry is writable and unmarked, all flags kept
            final(self).pt().dom() == old(self).pt().dom(),
            final(self).pt()[vpn].flags == (PTEFlags {
                w: true,
                cow: false,
                ..old(self).pt()[vpn].flags
            }),
            forall|v: VirtPageNum|
                v != vpn && old(self).pt().dom().contains(v) ==> #[trigger] final(self).pt()[v]
                    == old(self).pt()[v],
            // the fast path: sole owner, no allocation, nothing else moves
            old(a).count(former_ppn) == 1 ==> {
                &&& final(self).pt()[vpn].ppn == former_ppn
                &&& *final(a) == *old(a)
            },
            // the slow path: one fresh frame, contents copied, one
            // reference released
            old(a).count(former_ppn) >= 2 ==> {
                &&& final(self).pt()[vpn].ppn != former_ppn
                &&& !old(a).has_ref(final(self).pt()[vpn].ppn)
                &&& final(a).count(final(self).pt()[vpn].ppn) == 1
                &&& final(a).count(former_ppn) == old(a).count(former_ppn) - 1
                &&& final(a).page(final(self).pt()[vpn].ppn) == old(a).page(former_ppn)
                &&& final(a).free_frames() == old(a).free_frames() - 1
                &&& forall|p: PhysPageNum|
                    p != former_ppn && old(a).has_ref(p) ==> #[trigger] final(a).count(p) == old(a).count(p)
                &&& forall|p: PhysPageNum|
                    old(a).manages(p) && old(a).has_ref(p) ==> #[trigger] final(a).page(p) == old(a).page(p)
            },
    {
        let ghost m0 = *self;
        let ghost a0 = *a;
        proof {
            assert(m0.owned_vpn(vpn));
            lemma_owned_count(m0, a0, vpn);
        }
        if enquire_refcount(a, former_ppn) == 1 {
            // sole owner already: clear the mark and restore the write bit
            self.page_table.reset_cow(vpn);
            let pte = self.page_table.translate(vpn).unwrap();
            self.page_table.set_flags(vpn, pte.flags().with_w());
            proof {
                assert(self.pt().dom() =~= m0.pt().dom());
                lemma_wf_flags_change(m0, *self, vpn);
                assert forall|i: int|
                    0 <= i < self.vm_areas@.len() implies (#[trigger] self.vm_areas@[i]).counts_held(
                    *a,
                ) by {
                    assert(m0.vm_areas@[i].counts_held(a0));
                };
                assert forall|i: int|
                    0 <= i < self.mmap_areas@.len() implies (
                #[trigger] self.mmap_areas@[i]).counts_held(*a) by {
                    assert(m0.mmap_areas@[i].counts_held(a0));
                };
            }
            return 0;
        }
        // find the owning region first, by range containment: contiguous
        // regions, then mmap regions, then the heap
        let owner = self.find_cow_owner(vpn);
        let frame = alloc_frame(a).unwrap();
        let ppn = frame.ppn;
        crate::frame_allocator::copy_page(a, former_ppn, ppn);
        self.remap_cow(vpn, ppn, former_ppn);
        match owner {
            OwnerSlot::VmArea(i) => {
                proof {
                    lemma_vm_owner_excludes(m0, vpn, i as int);
                }
                let start = self.vm_areas[i].vpn_range.get_start().0;
                let area_ref = &mut self.vm_areas[i];
                area_ref.data_frames[vpn.0 - start] = frame;
                proof {
                    assert forall|i2: int|
                        0 <= i2 < m0.vm_areas@.len() && (#[trigger] m0.vm_areas@[i2]).map_type is Framed
                            && m0.vm_areas@[i2].vpn_range.spec_contains(vpn) implies self.vm_areas@[i2].data_frames@[vpn.0
                        - m0.vm_areas@[i2].vpn_range.start.0].ppn == ppn by {
                        assert(i2 == i as int);
                    };
                }
            },
            OwnerSlot::MmapArea(j, k) => {
                proof {
                    lemma_mmap_owner_excludes(m0, vpn, j as int);
                }
                let chunk_ref = &mut self.mmap_areas[j];
                chunk_ref.data_frames[k] = frame;
                proof {
                    assert forall|j2: int, k2: int|
                        0 <= j2 < m0.mmap_areas@.len() && 0 <= k2
                            < m0.mmap_areas@[j2].vpn_table@.len() && (
                        #[trigger] m0.mmap_areas@[j2].vpn_table@[k2]) == vpn implies self.mmap_areas@[j2].data_frames@[k2].ppn
                        == ppn by {
                        assert(m0.mmap_areas@[j2].resident(vpn));
                        assert(j2 == j as int);
                        assert(k2 == k as int);
                    };
                }
            },
            OwnerSlot::Heap(k) => {
                proof {
                    assert(m0.heap_areas.resident(vpn));
                    assert(m0.heap_areas.vpn_range.spec_contains(vpn));
                    lemma_heap_owner_excludes(m0, vpn);
                }
                self.heap_areas.data_frames[k] = frame;
                proof {
                    assert forall|k2: int|
                        0 <= k2 < m0.heap_areas.vpn_table@.len() && (
                        #[trigger] m0.heap_areas.vpn_table@[k2]) == vpn implies self.heap_areas.data_frames@[k2].ppn
                        == ppn by {
                        assert(k2 == k as int);
                    };
                }
            },
        }
        dealloc_frame(a, former_ppn);
        proof {
            assert(self.pt().dom() =~= m0.pt().dom());
            lemma_wf_after_cow_swap(m0, *self, a0, *a, vpn, former_ppn, ppn);
        }
        0
    }

    /// Which region owns the copy-on-write page `vpn`, and at which slot.
    fn find_cow_owner(&self, vpn: VirtPageNum) -> (r: OwnerSlot)
        requires
            self.wf(),
            self.pt().dom().contains(vpn),
            self.pt()[vpn].flags.cow,
        ensures
            match r {
                OwnerSlot::VmArea(i) => {
                    &&& i < self.vm_areas@.len()
                    &&& self.vm_areas@[i as int].map_type is Framed
                    &&& self.vm_areas@[i as int].vpn_range.spec_contains(vpn)
                    &&& 0 <= vpn.0 - self.vm_areas@[i as int].vpn_range.start.0
                        < self.vm_areas@[i as int].data_frames@.len()
                    &&& self.vm_areas@[i as int].data_frames@[vpn.0 - self.vm_areas@[
                        i as int
                    ].vpn_range.start.0].ppn == self.pt()[vpn].ppn
                },
                OwnerSlot::MmapArea(j, k) => {
                    &&& j < self.mmap_areas@.len()
                    &&& k < self.mmap_areas@[j as int].vpn_table@.len()
                    &&& self.mmap_areas@[j as int].vpn_table@[k as int] == vpn
                    &&& self.mmap_areas@[j as int].data_frames@[k as int].ppn == self.pt()[vpn].ppn
                },
                OwnerSlot::Heap(k) => {
                    &&& k < self.heap_areas.vpn_table@.len()
                    &&& self.heap_areas.vpn_table@[k as int] == vpn
                    &&& self.heap_areas.data_frames@[k as int].ppn == self.pt()[vpn].ppn
                },
            },
    {
        let nv = self.vm_areas.len();
        let mut i: usize = 0;
        while i < nv
            invariant
                i <= nv,
                nv == self.vm_areas@.len(),
                self.wf(),
                self.pt().dom().contains(vpn),
                self.pt()[vpn].flags.cow,
                forall|j: int|
                    0 <= j < i ==> !(#[trigger] self.vm_areas@[j]).vpn_range.spec_contains(vpn),
            decreases nv - i,
        {
            if self.vm_areas[i].vpn_range.contains(vpn) {
                proof {
                    lemma_cow_owner_is_vm(*self, vpn, i as int);
                }
                return OwnerSlot::VmArea(i);
            }
            i += 1;
        }
        let nm = self.mmap_areas.len();
        let mut j: usize = 0;
        while j < nm
            invariant
                j <= nm,
                nm == self.mmap_areas@.len(),
                self.wf(),
                self.pt().dom().contains(vpn),
                self.pt()[vpn].flags.cow,
                forall|j2: int|
                    0 <= j2 < self.vm_areas@.len() ==> !(#[trigger] self.vm_areas@[j2]).vpn_range.spec_contains(
                        vpn,
                    ),
                forall|j2: int|
                    0 <= j2 < j ==> !(#[trigger] self.mmap_areas@[j2]).vpn_range.spec_contains(vpn),
            decreases nm - j,
        {
            if self.mmap_areas[j].vpn_range.contains(vpn) {
                proof {
                    lemma_cow_owner_is_chunk(*self, vpn, j as int);
                }
                let k = Self::find_resident(&self.mmap_areas[j].vpn_table, vpn).unwrap();
                return OwnerSlot::MmapArea(j, k);
            }
            j += 1;
        }
        proof {
            lemma_cow_owner_is_heap(*self, vpn);
        }
        let k = Self::find_resident(&self.heap_areas.vpn_table, vpn).unwrap();
        OwnerSlot::Heap(k)
    }

    /// Install a region whose pages are already mapped in this space's
    /// page table: the copy-on-write fork path, where the child's table
    /// was filled page by page before the owning region is recorded.
    fn push_mapped_area(&mut self, map_area: MapArea, a: &StackFrameAllocator)
        requires
            old(self).wf_core(map_area.vpn_range),
            old(self).counts_held(*a),
            map_area.map_type is Framed,
            map_area.mapped_in(old(self).page_table),
            map_area.frames_distinct(),
            map_area.counts_held(*a),
            forall|i: int|
                0 <= i < old(self).all_ranges().len() ==> ranges_disjoint(
                    #[trigger] old(self).all_ranges()[i],
                    map_area.vpn_range,
                ),
            // its frames collide with no frame owned elsewhere, nor with
            // the table's own frames
            forall|v: VirtPageNum, v2: VirtPageNum|
                map_area.vpn_range.spec_contains(v) && old(self).owned_vpn(v2) ==> (#[trigger] old(self).pt()[v]).ppn != (#[trigger] old(self).pt()[v2]).ppn,
            forall|j: int, v: VirtPageNum|
                0 <= j < old(self).page_table.node_ppns().len()
                    && map_area.vpn_range.spec_contains(v) ==> #[trigger] old(self).page_table.node_ppns()[j] != (#[trigger] old(self).pt()[v]).ppn,
        ensures
            final(self).wf(),
            final(self).counts_held(*a),
            final(self).vm_areas@ == old(self).vm_areas@.push(map_area),
            final(self).mmap_areas == old(self).mmap_areas,
            final(self).heap_areas == old(self).heap_areas,
            final(self).brk == old(self).brk && final(self).brk_start == old(self).brk_start,
            final(self).page_table == old(self).page_table,
    {
        self.vm_areas.push(map_area);
        proof {
            let nr = map_area.vpn_range;
            let nvm = old(self).vm_areas@.len() as int;
            assert(self.pt() == old(self).pt());
            assert(self.vm_ranges() =~= old(self).vm_ranges().push(nr));
            assert forall|i: int, j: int|
                0 <= i < j < self.all_ranges().len() implies ranges_disjoint(
                #[trigger] self.all_ranges()[i],
                #[trigger] self.all_ranges()[j],
            ) by {
                if j == nvm {
                    assert(self.all_ranges()[i] == old(self).all_ranges()[i]);
                    assert(ranges_disjoint(old(self).all_ranges()[i], nr));
                } else if i == nvm {
                    assert(self.all_ranges()[j] == old(self).all_ranges()[j - 1]);
                    assert(ranges_disjoint(old(self).all_ranges()[j - 1], nr));
                } else {
                    let i1: int = if i < nvm { i } else { i - 1 };
                    let j1: int = if j < nvm { j } else { j - 1 };
                    assert(self.all_ranges()[i] == old(self).all_ranges()[i1]);
                    assert(self.all_ranges()[j] == old(self).all_ranges()[j1]);
                    assert(ranges_disjoint(old(self).all_ranges()[i1], old(self).all_ranges()[j1]));
                }
            };
            assert forall|i: int|
                0 <= i < self.vm_areas@.len() implies (#[trigger] self.vm_areas@[i]).mapped_in(
                self.page_table,
            ) && self.vm_areas@[i].counts_held(*a) && self.vm_areas@[i].frames_distinct() by {
                if i < nvm {
                    assert(self.vm_areas@[i] == old(self).vm_areas@[i]);
                } else {
                    assert(self.vm_areas@[i] == map_area);
                }
            };
            assert forall|v: VirtPageNum| old(self).owned_vpn(v) implies #[trigger] self.owned_vpn(
                v,
            ) by {
                lemma_owned_grows_vm(*old(self), *self, v);
            };
            assert forall|v: VirtPageNum|
                #[trigger] self.owned_vpn(v) implies old(self).owned_vpn(v) || nr.spec_contains(
                v,
            ) by {
                if exists|i: int|
                    0 <= i < self.vm_areas@.len() && (#[trigger] self.vm_areas@[i]).map_type is Framed
                        && self.vm_areas@[i].vpn_range.spec_contains(v) {
                    let i = choose|i: int|
                        0 <= i < self.vm_areas@.len() && (#[trigger] self.vm_areas@[i]).map_type is Framed
                            && self.vm_areas@[i].vpn_range.spec_contains(v);
                    if i < nvm {
                        assert(old(self).owned_vpn(v)) by {
                            assert(0 <= i < old(self).vm_areas@.len() && (#[trigger] old(self).vm_areas@[i]).map_type is Framed && old(self).vm_areas@[i].vpn_range.spec_contains(v));
                        };
                    }
                }
            };
            assert forall|v: VirtPageNum|
                self.pt().dom().contains(v) && (#[trigger] self.pt()[v]).flags.cow implies self.owned_vpn(
                v,
            ) by {
                if nr.spec_contains(v) {
                    assert(self.owned_vpn(v)) by {
                        assert(0 <= nvm < self.vm_areas@.len() && (
                        #[trigger] self.vm_areas@[nvm]).map_type is Framed
                            && self.vm_areas@[nvm].vpn_range.spec_contains(v));
                    };
                } else {
                    assert(old(self).owned_vpn(v) || nr.spec_contains(v));
                    assert(old(self).owned_vpn(v));
                }
            };
            assert forall|v1: VirtPageNum, v2: VirtPageNum|
                self.owned_vpn(v1) && self.owned_vpn(v2) && v1 != v2 implies (
            #[trigger] self.pt()[v1]).ppn != (#[trigger] self.pt()[v2]).ppn by {
                if nr.spec_contains(v1) && nr.spec_contains(v2) {
                    let k1 = v1.0 - nr.start.0;
                    let k2 = v2.0 - nr.start.0;
                    assert(vpn_at(nr, k1 as int) == v1);
                    assert(vpn_at(nr, k2 as int) == v2);
                    assert(self.pt()[v1].ppn == map_area.data_frames@[k1 as int].ppn);
                    assert(self.pt()[v2].ppn == map_area.data_frames@[k2 as int].ppn);
                } else if nr.spec_contains(v1) {
                    assert(old(self).owned_vpn(v2));
                } else if nr.spec_contains(v2) {
                    assert(old(self).owned_vpn(v1));
                } else {
                    assert(old(self).owned_vpn(v1) && old(self).owned_vpn(v2));
                }
            };
            assert forall|j: int, v: VirtPageNum|
                0 <= j < self.page_table.node_ppns().len() && self.owned_vpn(v) implies (
            #[trigger] self.page_table.node_ppns()[j]) != (#[trigger] self.pt()[v]).ppn by {
                if nr.spec_contains(v) {
                } else {
                    assert(old(self).owned_vpn(v) || nr.spec_contains(v));
                    assert(old(self).owned_vpn(v));
                }
            };
        }
    }

    /// Share the already-mapped page `vpn` of this space with `child`:
    /// strip the write bit and set the copy-on-write mark on both sides,
    /// map the same frame into the child, and hand back one more owning
    /// handle to it.
    fn share_mapped_page(
        &mut self,
        child_pt: &mut PageTable,
        vpn: VirtPageNum,
        a: &mut StackFrameAllocator,
    ) -> (f: FrameTracker)
        requires
            old(self).page_table.wf(),
            old(child_pt).wf(),
            old(a).wf(),
            old(a).free_frames() >= 2,
            old(self).pt().dom().contains(vpn),
            1 <= old(a).count(old(self).pt()[vpn].ppn) < usize::MAX,
            forall|j: int|
                0 <= j < old(child_pt).node_ppns().len() ==> old(a).count(
                    #[trigger] old(child_pt).node_ppns()[j],
                ) >= 1,
        ensures
            *final(self) == (MemorySet { page_table: final(self).page_table, ..*old(self) }),
            final(self).page_table.wf(),
            final(self).page_table.spec_root() == old(self).page_table.spec_root(),
            final(self).page_table.node_ppns() == old(self).page_table.node_ppns(),
            f.ppn == old(self).pt()[vpn].ppn,
            // the parent's entry loses its write bit and gains the mark
            final(self).pt() == old(self).pt().insert(
                vpn,
                PageTableEntry {
                    ppn: old(self).pt()[vpn].ppn,
                    flags: PTEFlags { w: false, cow: true, ..old(self).pt()[vpn].flags },
                },
            ),
            // the child maps the same frame, marked the same way
            final(child_pt).wf(),
            final(child_pt).spec_root() == old(child_pt).spec_root(),
            final(child_pt).view() == old(child_pt).view().insert(
                vpn,
                PageTableEntry {
                    ppn: old(self).pt()[vpn].ppn,
                    flags: PTEFlags {
                        v: true,
                        r: old(self).pt()[vpn].flags.r,
                        w: false,
                        x: old(self).pt()[vpn].flags.x,
                        u: old(self).pt()[vpn].flags.u,
                        cow: true,
                    },
                },
            ),
            // one more owner of the shared frame; everything else keeps
            // its count and contents
            final(a).wf(),
            final(a).spec_base() == old(a).spec_base(),
            final(a).spec_end() == old(a).spec_end(),
            final(a).free_frames() >= old(a).free_frames() - 2,
            final(a).count(f.ppn) == old(a).count(f.ppn) + 1,
            forall|p: PhysPageNum|
                p != f.ppn && old(a).has_ref(p) ==> #[trigger] final(a).count(p) == old(a).count(p),
            forall|p: PhysPageNum| #[trigger] final(a).count(p) >= old(a).count(p),
            forall|p: PhysPageNum|
                old(a).manages(p) && old(a).has_ref(p) ==> #[trigger] final(a).page(p) == old(a).page(p),
            // child table frames: old ones kept, new ones fresh even now
            final(child_pt).node_ppns().len() >= old(child_pt).node_ppns().len(),
            forall|j: int|
                0 <= j < old(child_pt).node_ppns().len() ==> #[trigger] final(child_pt).node_ppns()[j]
                    == old(child_pt).node_ppns()[j],
            forall|j: int|
                old(child_pt).node_ppns().len() <= j < final(child_pt).node_ppns().len() ==> !old(a).has_ref(#[trigger] final(child_pt).node_ppns()[j]) && final(a).count(
                    final(child_pt).node_ppns()[j],
                ) == 1 && final(a).manages(final(child_pt).node_ppns()[j]),
    {
        let pte = self.page_table.translate(vpn).unwrap();
        let src_ppn = pte.ppn();
        let nf = pte.flags().without_w();
        self.page_table.set_flags(vpn, nf);
        self.page_table.set_cow(vpn);
        child_pt.map(vpn, src_ppn, nf, a);
        child_pt.set_cow(vpn);
        let f = FrameTracker::from_ppn(src_ppn, a);
        proof {
            assert(final(self).pt() =~= old(self).pt().insert(
                vpn,
                PageTableEntry {
                    ppn: old(self).pt()[vpn].ppn,
                    flags: PTEFlags { w: false, cow: true, ..old(self).pt()[vpn].flags },
                },
            ));
            assert(final(child_pt).view() =~= old(child_pt).view().insert(
                vpn,
                PageTableEntry {
                    ppn: old(self).pt()[vpn].ppn,
                    flags: PTEFlags {
                        v: true,
                        r: old(self).pt()[vpn].flags.r,
                        w: false,
                        x: old(self).pt()[vpn].flags.x,
                        u: old(self).pt()[vpn].flags.u,
                        cow: true,
                    },
                },
            ));
        }
        f
    }

    /// Share a run of owned, mapped pages `[start, start + len)` of this
    /// space with the child table, collecting one owning handle per page.
    fn share_range(
        &mut self,
        cpt: &mut PageTable,
        start: usize,
        len: usize,
        a: &mut StackFrameAllocator,
        Ghost(m0): Ghost<MemorySet>,
        Ghost(a0): Ghost<StackFrameAllocator>,
        Ghost(shared0): Ghost<Set<VirtPageNum>>,
    ) -> (fs: Vec<FrameTracker>)
        requires
            m0.wf(),
            m0.counts_held(a0),
            a0.wf(),
            fork_mid(m0, a0, *old(self), *old(cpt), *old(a), shared0),
            forall|v: VirtPageNum|
                m0.owned_vpn(v) ==> a0.count((#[trigger] m0.pt()[v]).ppn) < usize::MAX - 1,
            start + len <= usize::MAX,
            forall|k: int|
                0 <= k < len ==> #[trigger] m0.owned_vpn(VirtPageNum((start + k) as usize))
                    && !m0.in_trap_area(VirtPageNum((start + k) as usize)) && !shared0.contains(
                    VirtPageNum((start + k) as usize),
                ),
            old(a).free_frames() >= 2 * len,
        ensures
            fork_mid(
                m0,
                a0,
                *final(self),
                *final(cpt),
                *final(a),
                shared0.union(range_set(start as int, len as int)),
            ),
            fs@.len() == len,
            forall|k: int|
                0 <= k < len ==> (#[trigger] fs@[k]).ppn == m0.pt()[VirtPageNum(
                    (start + k) as usize,
                )].ppn,
            final(a).free_frames() >= old(a).free_frames() - 2 * len,
            // pages outside the run keep their child mapping
            forall|v: VirtPageNum|
                !(start <= v.0 < start + len) ==> #[trigger] final(cpt).view().dom().contains(v)
                    == old(cpt).view().dom().contains(v),
            forall|v: VirtPageNum|
                !(start <= v.0 < start + len) && old(cpt).view().dom().contains(v)
                    ==> #[trigger] final(cpt).view()[v] == old(cpt).view()[v],
            // frames that were live stay untouched unless they back the run
            forall|p: PhysPageNum|
                old(a).has_ref(p) && (forall|k: int|
                    0 <= k < len ==> (#[trigger] m0.pt()[VirtPageNum((start + k) as usize)]).ppn
                        != p) ==> #[trigger] final(a).count(p) == old(a).count(p),
            forall|p: PhysPageNum|
                old(a).manages(p) && old(a).has_ref(p) ==> #[trigger] final(a).page(p) == old(a).page(p),
            forall|p: PhysPageNum| #[trigger] final(a).count(p) >= old(a).count(p),
            // child table frames gained here were free even now
            final(cpt).node_ppns().len() >= old(cpt).node_ppns().len(),
            forall|j: int|
                0 <= j < old(cpt).node_ppns().len() ==> #[trigger] final(cpt).node_ppns()[j] == old(cpt).node_ppns()[j],
            forall|j: int|
                old(cpt).node_ppns().len() <= j < final(cpt).node_ppns().len() ==> !old(a).has_ref(
                    #[trigger] final(cpt).node_ppns()[j],
                ),
    {
        let mut fs: Vec<FrameTracker> = Vec::new();
        let ghost mut shared = shared0;
        let mut k: usize = 0;
        while k < len
            invariant
                k <= len,
                m0.wf(),
                m0.counts_held(a0),
                a0.wf(),
                start + len <= usize::MAX,
                forall|v: VirtPageNum|
                    m0.owned_vpn(v) ==> a0.count((#[trigger] m0.pt()[v]).ppn) < usize::MAX - 1,
                forall|k2: int|
                    0 <= k2 < len ==> #[trigger] m0.owned_vpn(VirtPageNum((start + k2) as usize))
                        && !m0.in_trap_area(VirtPageNum((start + k2) as usize))
                        && !shared0.contains(VirtPageNum((start + k2) as usize)),
                shared == shared0.union(range_set(start as int, k as int)),
                fork_mid(m0, a0, *self, *cpt, *a, shared),
                fs@.len() == k,
                forall|k2: int|
                    0 <= k2 < k ==> (#[trigger] fs@[k2]).ppn == m0.pt()[VirtPageNum(
                        (start + k2) as usize,
                    )].ppn,
                a.free_frames() >= old(a).free_frames() - 2 * k,
                old(a).free_frames() >= 2 * len,
                old(a).spec_base() == a0.spec_base() && old(a).spec_end() == a0.spec_end(),
                forall|v: VirtPageNum|
                    !(start <= v.0 < start + len) ==> #[trigger] cpt.view().dom().contains(v) == old(cpt).view().dom().contains(v),
                forall|v: VirtPageNum|
                    !(start <= v.0 < start + len) && old(cpt).view().dom().contains(v)
                        ==> #[trigger] cpt.view()[v] == old(cpt).view()[v],
                forall|p: PhysPageNum|
                    old(a).has_ref(p) && (forall|k2: int|
                        0 <= k2 < len ==> (#[trigger] m0.pt()[VirtPageNum(
                            (start + k2) as usize,
                        )]).ppn != p) ==> #[trigger] a.count(p) == old(a).count(p),
                forall|p: PhysPageNum|
                    old(a).manages(p) && old(a).has_ref(p) ==> #[trigger] a.page(p) == old(a).page(
                        p,
                    ),
                forall|p: PhysPageNum| #[trigger] a.count(p) >= old(a).count(p),
                cpt.node_ppns().len() >= old(cpt).node_ppns().len(),
                forall|j: int|
                    0 <= j < old(cpt).node_ppns().len() ==> #[trigger] cpt.node_ppns()[j] == old(cpt).node_ppns()[j],
                forall|j: int|
                    old(cpt).node_ppns().len() <= j < cpt.node_ppns().len() ==> !old(a).has_ref(
                        #[trigger] cpt.node_ppns()[j],
                    ),
            decreases len - k,
        {
            let vpn = VirtPageNum(start + k);
            proof {
                assert(vpn == VirtPageNum((start + (k as int)) as usize));
                assert(m0.owned_vpn(VirtPageNum((start + (k as int)) as usize)));
                assert(m0.owned_vpn(vpn) && !shared0.contains(vpn));
                assert(!shared.contains(vpn));
                lemma_owned_count(m0, a0, vpn);
                assert(self.pt().dom().contains(vpn));
                assert(self.pt()[vpn].ppn == m0.pt()[vpn].ppn);
                assert(a.count(m0.pt()[vpn].ppn) >= 1) by {
                    assert(a.count(m0.pt()[vpn].ppn) >= a0.count(m0.pt()[vpn].ppn));
                };
                assert(a.count(self.pt()[vpn].ppn) < usize::MAX) by {
                    assert(a.count(m0.pt()[vpn].ppn) == a0.count(m0.pt()[vpn].ppn));
                };
            }
            let ghost self_pre = *self;
            let ghost cpt_pre = *cpt;
            let ghost a_pre = *a;
            let ghost shared_pre = shared;
            let f = self.share_mapped_page(cpt, vpn, a);
            fs.push(f);
            k += 1;
            proof {
                shared = shared.insert(vpn);
                assert(shared =~= shared0.union(range_set(start as int, k as int)));
                assert forall|v: VirtPageNum| #[trigger] shared.contains(v) implies m0.pt().dom().contains(
                    v,
                ) && m0.owned_vpn(v) && !m0.in_trap_area(v) && self.pt()[v].flags == (PTEFlags {
                    w: false,
                    cow: true,
                    ..m0.pt()[v].flags
                }) && cpt.view().dom().contains(v) && cpt.view()[v] == (PageTableEntry {
                    ppn: m0.pt()[v].ppn,
                    flags: PTEFlags {
                        v: true,
                        r: m0.pt()[v].flags.r,
                        w: false,
                        x: m0.pt()[v].flags.x,
                        u: m0.pt()[v].flags.u,
                        cow: true,
                    },
                }) && a.count(m0.pt()[v].ppn) == a0.count(m0.pt()[v].ppn) + 1 by {
                    if v == vpn {
                        assert(self_pre.pt()[vpn] == m0.pt()[vpn]);
                        assert(a_pre.count(m0.pt()[vpn].ppn) == a0.count(m0.pt()[vpn].ppn));
                    } else {
                        assert(shared_pre.contains(v));
                        assert(self.pt()[v] == self_pre.pt()[v]);
                        assert(cpt.view()[v] == cpt_pre.view()[v]);
                        assert(m0.pt()[v].ppn != m0.pt()[vpn].ppn) by {
                            assert(m0.owned_vpn(v) && m0.owned_vpn(vpn) && v != vpn);
                        };
                        assert(a.count(m0.pt()[v].ppn) == a_pre.count(m0.pt()[v].ppn));
                    }
                };
                assert forall|v: VirtPageNum|
                    m0.pt().dom().contains(v) && !shared.contains(v) implies #[trigger] self.pt()[v]
                        == m0.pt()[v] by {
                    assert(!shared_pre.contains(v));
                    assert(self_pre.pt()[v] == m0.pt()[v]);
                    assert(v != vpn);
                };
                assert forall|p: PhysPageNum|
                    a0.has_ref(p) && (forall|v: VirtPageNum|
                        #[trigger] shared.contains(v) ==> m0.pt()[v].ppn != p) implies #[trigger] a.count(
                    p,
                ) == a0.count(p) by {
                    assert(shared.contains(vpn));
                    assert(m0.pt()[vpn].ppn != p);
                    assert forall|v: VirtPageNum| #[trigger] shared_pre.contains(v) implies m0.pt()[v].ppn
                        != p by {
                        assert(shared.contains(v));
                    };
                    assert(a_pre.count(p) == a0.count(p));
                    assert(f.ppn == m0.pt()[vpn].ppn);
                };
                assert forall|p: PhysPageNum|
                    old(a).has_ref(p) && (forall|k2: int|
                        0 <= k2 < len ==> (#[trigger] m0.pt()[VirtPageNum(
                            (start + k2) as usize,
                        )]).ppn != p) implies #[trigger] a.count(p) == old(a).count(p) by {
                    assert(m0.pt()[VirtPageNum((start + (k - 1)) as usize)].ppn != p);
                    assert(f.ppn != p);
                    assert(a_pre.has_ref(p)) by {
                        assert(a_pre.count(p) >= old(a).count(p));
                    };
                };
                assert(self.pt().dom() =~= m0.pt().dom());
                assert forall|p: PhysPageNum| #[trigger] a.count(p) >= a0.count(p) by {
                    assert(a.count(p) >= a_pre.count(p));
                    assert(a_pre.count(p) >= a0.count(p));
                };
                assert forall|p: PhysPageNum|
                    old(a).manages(p) && old(a).has_ref(p) implies #[trigger] a.page(p) == old(a).page(p) by {
                    assert(a_pre.count(p) >= old(a).count(p));
                    assert(a_pre.manages(p));
                    assert(a_pre.page(p) == old(a).page(p));
                };
                assert forall|j: int|
                    0 <= j < cpt.node_ppns().len() implies !a0.has_ref(
                    #[trigger] cpt.node_ppns()[j],
                ) && a.count(cpt.node_ppns()[j]) == 1 && a.manages(cpt.node_ppns()[j]) by {
                    if j < cpt_pre.node_ppns().len() {
                        assert(cpt.node_ppns()[j] == cpt_pre.node_ppns()[j]);
                        assert(a_pre.count(cpt_pre.node_ppns()[j]) == 1);
                        assert(cpt_pre.node_ppns()[j] != f.ppn) by {
                            assert(a0.count(f.ppn) >= 1);
                            assert(!a0.has_ref(cpt_pre.node_ppns()[j]));
                        };
                    } else {
                        assert(!a_pre.has_ref(cpt.node_ppns()[j]));
                        assert(a_pre.count(cpt.node_ppns()[j]) >= a0.count(cpt.node_ppns()[j]));
                    }
                };
                assert forall|j: int|
                    old(cpt).node_ppns().len() <= j < cpt.node_ppns().len() implies !old(a).has_ref(
                    #[trigger] cpt.node_ppns()[j],
                ) by {
                    if j < cpt_pre.node_ppns().len() {
                        assert(cpt.node_ppns()[j] == cpt_pre.node_ppns()[j]);
                    } else {
                        assert(!a_pre.has_ref(cpt.node_ppns()[j]));
                        assert(a_pre.count(cpt.node_ppns()[j]) >= old(a).count(cpt.node_ppns()[j]));
                    }
                };
            }
        }
        proof {
            assert(shared =~= shared0.union(range_set(start as int, len as int)));
        }
        fs
    }

    /// Share the listed owned, mapped pages of this space with the child
    /// table, collecting one owning handle per page: the per-page step of
    /// a fork for a sparse region's resident pages.
    fn share_listed(
        &mut self,
        cpt: &mut PageTable,
        table: &Vec<VirtPageNum>,
        a: &mut StackFrameAllocator,
        Ghost(m0): Ghost<MemorySet>,
        Ghost(a0): Ghost<StackFrameAllocator>,
        Ghost(shared0): Ghost<Set<VirtPageNum>>,
    ) -> (fs: Vec<FrameTracker>)
        requires
            m0.wf(),
            m0.counts_held(a0),
            a0.wf(),
            fork_mid(m0, a0, *old(self), *old(cpt), *old(a), shared0),
            forall|v: VirtPageNum|
                m0.owned_vpn(v) ==> a0.count((#[trigger] m0.pt()[v]).ppn) < usize::MAX - 1,
            forall|k1: int, k2: int|
                0 <= k1 < k2 < table@.len() ==> #[trigger] table@[k1] != #[trigger] table@[k2],
            forall|k: int|
                0 <= k < table@.len() ==> #[trigger] m0.owned_vpn(table@[k]) && !m0.in_trap_area(
                    table@[k],
                ) && !shared0.contains(table@[k]),
            old(a).free_frames() >= 2 * table@.len(),
        ensures
            fork_mid(
                m0,
                a0,
                *final(self),
                *final(cpt),
                *final(a),
                shared0.union(listed_set(table@, table@.len() as int)),
            ),
            fs@.len() == table@.len(),
            forall|k: int|
                0 <= k < table@.len() ==> (#[trigger] fs@[k]).ppn == m0.pt()[table@[k]].ppn,
            final(a).free_frames() >= old(a).free_frames() - 2 * table@.len(),
            // pages off the list keep their child mapping
            forall|v: VirtPageNum|
                !listed_set(table@, table@.len() as int).contains(v)
                    ==> #[trigger] final(cpt).view().dom().contains(v) == old(cpt).view().dom().contains(v),
            forall|v: VirtPageNum|
                !listed_set(table@, table@.len() as int).contains(v) && old(cpt).view().dom().contains(v)
                    ==> #[trigger] final(cpt).view()[v] == old(cpt).view()[v],
            // frames that were live stay untouched unless they back the list
            forall|p: PhysPageNum|
                old(a).has_ref(p) && (forall|k: int|
                    0 <= k < table@.len() ==> (#[trigger] m0.pt()[table@[k]]).ppn != p)
                    ==> #[trigger] final(a).count(p) == old(a).count(p),
            forall|p: PhysPageNum|
                old(a).manages(p) && old(a).has_ref(p) ==> #[trigger] final(a).page(p) == old(a).page(p),
            forall|p: PhysPageNum| #[trigger] final(a).count(p) >= old(a).count(p),
            // child table frames gained here were free even now
            final(cpt).node_ppns().len() >= old(cpt).node_ppns().len(),
            forall|j: int|
                0 <= j < old(cpt).node_ppns().len() ==> #[trigger] final(cpt).node_ppns()[j] == old(cpt).node_ppns()[j],
            forall|j: int|
                old(cpt).node_ppns().len() <= j < final(cpt).node_ppns().len() ==> !old(a).has_ref(
                    #[trigger] final(cpt).node_ppns()[j],
                ),
    {
        let mut fs: Vec<FrameTracker> = Vec::new();
        let ghost mut shared = shared0;
        let n = table.len();
        let mut k: usize = 0;
        while k < n
            invariant
                k <= n,
                n == table@.len(),
                m0.wf(),
                m0.counts_held(a0),
                a0.wf(),
                forall|v: VirtPageNum|
                    m0.owned_vpn(v) ==> a0.count((#[trigger] m0.pt()[v]).ppn) < usize::MAX - 1,
                forall|k1: int, k2: int|
                    0 <= k1 < k2 < table@.len() ==> #[trigger] table@[k1] != #[trigger] table@[k2],
                forall|k2: int|
                    0 <= k2 < table@.len() ==> #[trigger] m0.owned_vpn(table@[k2])
                        && !m0.in_trap_area(table@[k2]) && !shared0.contains(table@[k2]),
                shared == shared0.union(listed_set(table@, k as int)),
                fork_mid(m0, a0, *self, *cpt, *a, shared),
                fs@.len() == k,
                forall|k2: int|
                    0 <= k2 < k ==> (#[trigger] fs@[k2]).ppn == m0.pt()[table@[k2]].ppn,
                a.free_frames() >= old(a).free_frames() - 2 * k,
                old(a).free_frames() >= 2 * table@.len(),
                old(a).spec_base() == a0.spec_base() && old(a).spec_end() == a0.spec_end(),
                forall|v: VirtPageNum|
                    !listed_set(table@, table@.len() as int).contains(v)
                        ==> #[trigger] cpt.view().dom().contains(v) == old(cpt).view().dom().contains(v),
                forall|v: VirtPageNum|
                    !listed_set(table@, table@.len() as int).contains(v) && old(cpt).view().dom().contains(v)
                        ==> #[trigger] cpt.view()[v] == old(cpt).view()[v],
                forall|p: PhysPageNum|
                    old(a).has_ref(p) && (forall|k2: int|
                        0 <= k2 < table@.len() ==> (#[trigger] m0.pt()[table@[k2]]).ppn != p)
                        ==> #[trigger] a.count(p) == old(a).count(p),
                forall|p: PhysPageNum|
                    old(a).manages(p) && old(a).has_ref(p) ==> #[trigger] a.page(p) == old(a).page(
                        p,
                    ),
                forall|p: PhysPageNum| #[trigger] a.count(p) >= old(a).count(p),
                cpt.node_ppns().len() >= old(cpt).node_ppns().len(),
                forall|j: int|
                    0 <= j < old(cpt).node_ppns().len() ==> #[trigger] cpt.node_ppns()[j] == old(cpt).node_ppns()[j],
                forall|j: int|
                    old(cpt).node_ppns().len() <= j < cpt.node_ppns().len() ==> !old(a).has_ref(
                        #[trigger] cpt.node_ppns()[j],
                    ),
            decreases n - k,
        {
            let vpn = table[k];
            proof {
                assert(vpn == table@[k as int]);
                assert(m0.owned_vpn(table@[k as int]));
                assert(m0.owned_vpn(vpn) && !shared0.contains(vpn));
                assert(!listed_set(table@, k as int).contains(vpn)) by {
                    if listed_set(table@, k as int).contains(vpn) {
                        let k2 = choose|k2: int| 0 <= k2 < k && table@[k2] == vpn;
                        assert(table@[k2] != table@[k as int]);
                    }
                };
                assert(!shared.contains(vpn));
                lemma_owned_count(m0, a0, vpn);
                assert(self.pt().dom().contains(vpn));
                assert(self.pt()[vpn].ppn == m0.pt()[vpn].ppn);
                assert(a.count(m0.pt()[vpn].ppn) >= 1) by {
                    assert(a.count(m0.pt()[vpn].ppn) >= a0.count(m0.pt()[vpn].ppn));
                };
                assert(a.count(self.pt()[vpn].ppn) < usize::MAX) by {
                    assert(a.count(m0.pt()[vpn].ppn) == a0.count(m0.pt()[vpn].ppn));
                };
            }
            let ghost self_pre = *self;
            let ghost cpt_pre = *cpt;
            let ghost a_pre = *a;
            let ghost shared_pre = shared;
            let f = self.share_mapped_page(cpt, vpn, a);
            fs.push(f);
            k += 1;
            proof {
                shared = shared.insert(vpn);
                assert(shared =~= shared0.union(listed_set(table@, k as int))) by {
                    assert forall|v: VirtPageNum|
                        #[trigger] listed_set(table@, k as int).contains(v)
                            implies shared_pre.insert(vpn).contains(v) by {
                        let k2 = choose|k2: int| 0 <= k2 < k && table@[k2] == v;
                        if k2 < k - 1 {
                            assert(listed_set(table@, k - 1).contains(v));
                        } else {
                            assert(v == vpn);
                        }
                    };
                };
                assert forall|v: VirtPageNum| #[trigger] shared.contains(v) implies m0.pt().dom().contains(
                    v,
                ) && m0.owned_vpn(v) && !m0.in_trap_area(v) && self.pt()[v].flags == (PTEFlags {
                    w: false,
                    cow: true,
                    ..m0.pt()[v].flags
                }) && cpt.view().dom().contains(v) && cpt.view()[v] == (PageTableEntry {
                    ppn: m0.pt()[v].ppn,
                    flags: PTEFlags {
                        v: true,
                        r: m0.pt()[v].flags.r,
                        w: false,
                        x: m0.pt()[v].flags.x,
                        u: m0.pt()[v].flags.u,
                        cow: true,
                    },
                }) && a.count(m0.pt()[v].ppn) == a0.count(m0.pt()[v].ppn) + 1 by {
                    if v == vpn {
                        assert(self_pre.pt()[vpn] == m0.pt()[vpn]);
                        assert(a_pre.count(m0.pt()[vpn].ppn) == a0.count(m0.pt()[vpn].ppn));
                    } else {
                        assert(shared_pre.contains(v));
                        assert(self.pt()[v] == self_pre.pt()[v]);
                        assert(cpt.view()[v] == cpt_pre.view()[v]);
                        assert(m0.pt()[v].ppn != m0.pt()[vpn].ppn) by {
                            assert(m0.owned_vpn(v) && m0.owned_vpn(vpn) && v != vpn);
                        };
                        assert(a.count(m0.pt()[v].ppn) == a_pre.count(m0.pt()[v].ppn));
                    }
                };
                assert forall|v: VirtPageNum|
                    m0.pt().dom().contains(v) && !shared.contains(v) implies #[trigger] self.pt()[v]
                        == m0.pt()[v] by {
                    assert(!shared_pre.contains(v));
                    assert(self_pre.pt()[v] == m0.pt()[v]);
                    assert(v != vpn);
                };
                assert forall|p: PhysPageNum|
                    a0.has_ref(p) && (forall|v: VirtPageNum|
                        #[trigger] shared.contains(v) ==> m0.pt()[v].ppn != p) implies #[trigger] a.count(
                    p,
                ) == a0.count(p) by {
                    assert(shared.contains(vpn));
                    assert(m0.pt()[vpn].ppn != p);
                    assert forall|v: VirtPageNum| #[trigger] shared_pre.contains(v) implies m0.pt()[v].ppn
                        != p by {
                        assert(shared.contains(v));
                    };
                    assert(a_pre.count(p) == a0.count(p));
                    assert(f.ppn == m0.pt()[vpn].ppn);
                };
                assert forall|p: PhysPageNum|
                    old(a).has_ref(p) && (forall|k2: int|
                        0 <= k2 < table@.len() ==> (#[trigger] m0.pt()[table@[k2]]).ppn != p)
                        implies #[trigger] a.count(p) == old(a).count(p) by {
                    assert(m0.pt()[table@[k - 1]].ppn != p);
                    assert(f.ppn != p);
                    assert(a_pre.has_ref(p)) by {
                        assert(a_pre.count(p) >= old(a).count(p));
                    };
                };
                assert forall|v: VirtPageNum|
                    !listed_set(table@, table@.len() as int).contains(v)
                        implies #[trigger] cpt.view().dom().contains(v) == old(cpt).view().dom().contains(
                        v,
                    ) && (old(cpt).view().dom().contains(v) ==> cpt.view()[v] == old(cpt).view()[v]) by {
                    assert(v != vpn) by {
                        assert(listed_set(table@, table@.len() as int).contains(table@[k - 1]));
                    };
                };
                assert(self.pt().dom() =~= m0.pt().dom());
                assert forall|p: PhysPageNum| #[trigger] a.count(p) >= a0.count(p) by {
                    assert(a.count(p) >= a_pre.count(p));
                    assert(a_pre.count(p) >= a0.count(p));
                };
                assert forall|p: PhysPageNum|
                    old(a).manages(p) && old(a).has_ref(p) implies #[trigger] a.page(p) == old(a).page(p) by {
                    assert(a_pre.count(p) >= old(a).count(p));
                    assert(a_pre.manages(p));
                    assert(a_pre.page(p) == old(a).page(p));
                };
                assert forall|j: int|
                    0 <= j < cpt.node_ppns().len() implies !a0.has_ref(
                    #[trigger] cpt.node_ppns()[j],
                ) && a.count(cpt.node_ppns()[j]) == 1 && a.manages(cpt.node_ppns()[j]) by {
                    if j < cpt_pre.node_ppns().len() {
                        assert(cpt.node_ppns()[j] == cpt_pre.node_ppns()[j]);
                        assert(a_pre.count(cpt_pre.node_ppns()[j]) == 1);
                        assert(cpt_pre.node_ppns()[j] != f.ppn) by {
                            assert(a0.count(f.ppn) >= 1);
                            assert(!a0.has_ref(cpt_pre.node_ppns()[j]));
                        };
                    } else {
                        assert(!a_pre.has_ref(cpt.node_ppns()[j]));
                        assert(a_pre.count(cpt.node_ppns()[j]) >= a0.count(cpt.node_ppns()[j]));
                    }
                };
                assert forall|j: int|
                    old(cpt).node_ppns().len() <= j < cpt.node_ppns().len() implies !old(a).has_ref(
                    #[trigger] cpt.node_ppns()[j],
                ) by {
                    if j < cpt_pre.node_ppns().len() {
                        assert(cpt.node_ppns()[j] == cpt_pre.node_ppns()[j]);
                    } else {
                        assert(!a_pre.has_ref(cpt.node_ppns()[j]));
                        assert(a_pre.count(cpt.node_ppns()[j]) >= old(a).count(cpt.node_ppns()[j]));
                    }
                };
            }
        }
        proof {
            assert(shared =~= shared0.union(listed_set(table@, table@.len() as int)));
        }
        fs
    }

    /// Install an mmap region whose resident pages are already mapped in
    /// this space's page table: the copy-on-write fork path.
    fn push_mapped_chunk(&mut self, chunk: ChunkArea, a: &StackFrameAllocator)
        requires
            old(self).wf_core(chunk.vpn_range),
            // a mark inside the chunk's range that no region accounts for
            // yet must be on one of the chunk's own resident pages
            forall|v: VirtPageNum|
                old(self).pt().dom().contains(v) && (#[trigger] old(self).pt()[v]).flags.cow
                    && !old(self).owned_vpn(v) ==> chunk.resident(v),
            old(self).counts_held(*a),
            chunk.map_type is Framed,
            chunk.mapped_in(old(self).page_table),
            chunk.frames_distinct(),
            chunk.counts_held(*a),
            forall|i: int|
                0 <= i < old(self).all_ranges().len() ==> ranges_disjoint(
                    #[trigger] old(self).all_ranges()[i],
                    chunk.vpn_range,
                ),
            forall|k: int, v2: VirtPageNum|
                0 <= k < chunk.vpn_table@.len() && old(self).owned_vpn(v2) ==> (#[trigger] old(self).pt()[chunk.vpn_table@[k]]).ppn != (#[trigger] old(self).pt()[v2]).ppn,
            forall|j: int, k: int|
                0 <= j < old(self).page_table.node_ppns().len() && 0 <= k
                    < chunk.vpn_table@.len() ==> #[trigger] old(self).page_table.node_ppns()[j] != (
                #[trigger] old(self).pt()[chunk.vpn_table@[k]]).ppn,
        ensures
            final(self).wf(),
            final(self).counts_held(*a),
            final(self).mmap_areas@ == old(self).mmap_areas@.push(chunk),
            final(self).vm_areas == old(self).vm_areas,
            final(self).heap_areas == old(self).heap_areas,
            final(self).brk == old(self).brk && final(self).brk_start == old(self).brk_start,
            final(self).page_table == old(self).page_table,
    {
        self.mmap_areas.push(chunk);
        proof {
            let nr = chunk.vpn_range;
            let nvm = old(self).vm_areas@.len() as int;
            let nmm = old(self).mmap_areas@.len() as int;
            assert(self.pt() == old(self).pt());
            assert(self.mmap_ranges() =~= old(self).mmap_ranges().push(nr));
            assert forall|i: int, j: int|
                0 <= i < j < self.all_ranges().len() implies ranges_disjoint(
                #[trigger] self.all_ranges()[i],
                #[trigger] self.all_ranges()[j],
            ) by {
                if j == nvm + nmm {
                    assert(self.all_ranges()[i] == old(self).all_ranges()[i]);
                    assert(ranges_disjoint(old(self).all_ranges()[i], nr));
                } else if i == nvm + nmm {
                    assert(self.all_ranges()[j] == old(self).all_ranges()[nvm + nmm]);
                    assert(ranges_disjoint(old(self).all_ranges()[nvm + nmm], nr));
                } else {
                    let i1: int = if i < nvm + nmm { i } else { i - 1 };
                    let j1: int = if j < nvm + nmm { j } else { j - 1 };
                    assert(self.all_ranges()[i] == old(self).all_ranges()[i1]);
                    assert(self.all_ranges()[j] == old(self).all_ranges()[j1]);
                    assert(ranges_disjoint(old(self).all_ranges()[i1], old(self).all_ranges()[j1]));
                }
            };
            assert forall|i: int|
                0 <= i < self.mmap_areas@.len() implies (#[trigger] self.mmap_areas@[i]).mapped_in(
                self.page_table,
            ) && self.mmap_areas@[i].counts_held(*a) && self.mmap_areas@[i].frames_distinct()
                && self.mmap_areas@[i].map_type is Framed by {
                if i < nmm {
                    assert(self.mmap_areas@[i] == old(self).mmap_areas@[i]);
                } else {
                    assert(self.mmap_areas@[i] == chunk);
                }
            };
            assert forall|v: VirtPageNum| old(self).owned_vpn(v) implies #[trigger] self.owned_vpn(
                v,
            ) by {
                if exists|i: int|
                    0 <= i < old(self).mmap_areas@.len() && (#[trigger] old(self).mmap_areas@[i]).resident(v) {
                    let i = choose|i: int|
                        0 <= i < old(self).mmap_areas@.len() && (#[trigger] old(self).mmap_areas@[i]).resident(v);
                    assert(self.mmap_areas@[i].resident(v));
                    assert(self.owned_vpn(v)) by {
                        assert(0 <= i < self.mmap_areas@.len() && (#[trigger] self.mmap_areas@[i]).resident(
                            v,
                        ));
                    };
                }
            };
            assert forall|v: VirtPageNum|
                #[trigger] self.owned_vpn(v) implies old(self).owned_vpn(v) || chunk.resident(
                v,
            ) by {
                if exists|i: int|
                    0 <= i < self.mmap_areas@.len() && (#[trigger] self.mmap_areas@[i]).resident(v) {
                    let i = choose|i: int|
                        0 <= i < self.mmap_areas@.len() && (#[trigger] self.mmap_areas@[i]).resident(
                        v);
                    if i < nmm {
                        assert(old(self).owned_vpn(v)) by {
                            assert(0 <= i < old(self).mmap_areas@.len() && (#[trigger] old(self).mmap_areas@[i]).resident(v));
                        };
                    }
                }
            };
            assert forall|v: VirtPageNum|
                self.pt().dom().contains(v) && (#[trigger] self.pt()[v]).flags.cow implies self.owned_vpn(
                v,
            ) by {
                if chunk.resident(v) {
                    assert(self.owned_vpn(v)) by {
                        assert(0 <= nmm < self.mmap_areas@.len() && (
                        #[trigger] self.mmap_areas@[nmm]).resident(v));
                    };
                } else {
                    assert(old(self).owned_vpn(v)) by {
                        if !old(self).owned_vpn(v) {
                            assert(chunk.resident(v));
                        }
                    };
                }
            };
            assert forall|v1: VirtPageNum, v2: VirtPageNum|
                self.owned_vpn(v1) && self.owned_vpn(v2) && v1 != v2 implies (
            #[trigger] self.pt()[v1]).ppn != (#[trigger] self.pt()[v2]).ppn by {
                if chunk.resident(v1) && chunk.resident(v2) {
                    let k1 = choose|k: int|
                        0 <= k < chunk.vpn_table@.len() && chunk.vpn_table@[k] == v1;
                    let k2 = choose|k: int|
                        0 <= k < chunk.vpn_table@.len() && chunk.vpn_table@[k] == v2;
                    assert(self.pt()[v1].ppn == chunk.data_frames@[k1].ppn);
                    assert(self.pt()[v2].ppn == chunk.data_frames@[k2].ppn);
                    assert(k1 != k2);
                } else if chunk.resident(v1) {
                    assert(old(self).owned_vpn(v2));
                    let k1 = choose|k: int|
                        0 <= k < chunk.vpn_table@.len() && chunk.vpn_table@[k] == v1;
                    assert(old(self).pt()[chunk.vpn_table@[k1]].ppn != old(self).pt()[v2].ppn);
                } else if chunk.resident(v2) {
                    assert(old(self).owned_vpn(v1));
                    let k2 = choose|k: int|
                        0 <= k < chunk.vpn_table@.len() && chunk.vpn_table@[k] == v2;
                    assert(old(self).pt()[chunk.vpn_table@[k2]].ppn != old(self).pt()[v1].ppn);
                } else {
                    assert(old(self).owned_vpn(v1) && old(self).owned_vpn(v2));
                }
            };
            assert forall|j: int, v: VirtPageNum|
                0 <= j < self.page_table.node_ppns().len() && self.owned_vpn(v) implies (
            #[trigger] self.page_table.node_ppns()[j]) != (#[trigger] self.pt()[v]).ppn by {
                if chunk.resident(v) {
                    let k = choose|k: int|
                        0 <= k < chunk.vpn_table@.len() && chunk.vpn_table@[k] == v;
                    assert(old(self).page_table.node_ppns()[j] != old(self).pt()[chunk.vpn_table@[k]].ppn);
                } else {
                    assert(old(self).owned_vpn(v));
                }
            };
        }
    }

    /// Install the heap region of a forked child: the declared bounds and
    /// boundary markers of the parent, with the already-shared resident
    /// pages. The child's heap must still be the empty one of `new_bare`.
    fn install_heap(&mut self, heap: ChunkArea, brk_start: usize, brk: usize, a: &StackFrameAllocator)
        requires
            old(self).wf_core(heap.vpn_range),
            // a mark inside the heap's range that no region accounts for
            // yet must be on one of the heap's own resident pages
            forall|v: VirtPageNum|
                old(self).pt().dom().contains(v) && (#[trigger] old(self).pt()[v]).flags.cow
                    && !old(self).owned_vpn(v) ==> heap.resident(v),
            old(self).counts_held(*a),
            old(self).heap_range() == (VPNRange { start: VirtPageNum(0), end: VirtPageNum(0) }),
            heap.map_type is Framed,
            heap.mapped_in(old(self).page_table),
            heap.frames_distinct(),
            heap.counts_held(*a),
            heap.vpn_range.end.0 <= crate::consts::MAX_VPN,
            brk_start == heap.vpn_range.start.0 * PAGE_SIZE,
            brk_start <= brk <= heap.vpn_range.end.0 * PAGE_SIZE,
            forall|i: int|
                0 <= i < old(self).all_ranges().len() ==> ranges_disjoint(
                    #[trigger] old(self).all_ranges()[i],
                    heap.vpn_range,
                ),
            forall|k: int, v2: VirtPageNum|
                0 <= k < heap.vpn_table@.len() && old(self).owned_vpn(v2) ==> (#[trigger] old(self).pt()[heap.vpn_table@[k]]).ppn != (#[trigger] old(self).pt()[v2]).ppn,
            forall|j: int, k: int|
                0 <= j < old(self).page_table.node_ppns().len() && 0 <= k < heap.vpn_table@.len()
                    ==> #[trigger] old(self).page_table.node_ppns()[j] != (#[trigger] old(self).pt()[heap.vpn_table@[k]]).ppn,
        ensures
            final(self).wf(),
            final(self).counts_held(*a),
            final(self).heap_areas == heap,
            final(self).brk == brk && final(self).brk_start == brk_start,
            final(self).vm_areas == old(self).vm_areas,
            final(self).mmap_areas == old(self).mmap_areas,
            final(self).page_table == old(self).page_table,
    {
        self.heap_areas = heap;
        self.brk_start = brk_start;
        self.brk = brk;
        proof {
            let nr = heap.vpn_range;
            let nvm = old(self).vm_areas@.len() as int;
            let nmm = old(self).mmap_areas@.len() as int;
            assert(self.pt() == old(self).pt());
            assert forall|i: int, j: int|
                0 <= i < j < self.all_ranges().len() implies ranges_disjoint(
                #[trigger] self.all_ranges()[i],
                #[trigger] self.all_ranges()[j],
            ) by {
                if j == nvm + nmm {
                    assert(self.all_ranges()[i] == old(self).all_ranges()[i]);
                    assert(ranges_disjoint(old(self).all_ranges()[i], nr));
                } else {
                    assert(self.all_ranges()[i] == old(self).all_ranges()[i]);
                    assert(self.all_ranges()[j] == old(self).all_ranges()[j]);
                    assert(ranges_disjoint(old(self).all_ranges()[i], old(self).all_ranges()[j]));
                }
            };
            assert forall|v: VirtPageNum| old(self).owned_vpn(v) implies #[trigger] self.owned_vpn(
                v,
            ) && !heap.resident(v) by {
                assert(!old(self).heap_areas.resident(v)) by {
                    if old(self).heap_areas.resident(v) {
                        assert(old(self).heap_range().spec_contains(v));
                    }
                };
                if exists|i: int|
                    0 <= i < old(self).vm_areas@.len() && (#[trigger] old(self).vm_areas@[i]).map_type is Framed && old(self).vm_areas@[i].vpn_range.spec_contains(
                        v,
                    ) {
                    let i = choose|i: int|
                        0 <= i < old(self).vm_areas@.len() && (#[trigger] old(self).vm_areas@[i]).map_type is Framed && old(self).vm_areas@[i].vpn_range.spec_contains(v);
                    assert(ranges_disjoint(old(self).all_ranges()[i], nr));
                    assert(!heap.resident(v)) by {
                        if heap.resident(v) {
                            assert(heap.vpn_range.spec_contains(v));
                        }
                    };
                    assert(self.owned_vpn(v)) by {
                        assert(0 <= i < self.vm_areas@.len() && (#[trigger] self.vm_areas@[i]).map_type is Framed
                            && self.vm_areas@[i].vpn_range.spec_contains(v));
                    };
                } else if exists|i: int|
                    0 <= i < old(self).mmap_areas@.len() && (#[trigger] old(self).mmap_areas@[i]).resident(v) {
                    let i = choose|i: int|
                        0 <= i < old(self).mmap_areas@.len() && (#[trigger] old(self).mmap_areas@[i]).resident(v);
                    assert(old(self).mmap_areas@[i].vpn_range.spec_contains(v));
                    assert(ranges_disjoint(old(self).all_ranges()[nvm + i], nr));
                    assert(!heap.resident(v)) by {
                        if heap.resident(v) {
                            assert(heap.vpn_range.spec_contains(v));
                        }
                    };
                    assert(self.owned_vpn(v)) by {
                        assert(0 <= i < self.mmap_areas@.len() && (#[trigger] self.mmap_areas@[i]).resident(
                            v,
                        ));
                    };
                } else {
                    assert(old(self).heap_areas.resident(v));
                    assert(false);
                }
            };
            assert forall|v: VirtPageNum|
                #[trigger] self.owned_vpn(v) implies old(self).owned_vpn(v) || heap.resident(
                v,
            ) by {};
            assert forall|v: VirtPageNum|
                self.pt().dom().contains(v) && (#[trigger] self.pt()[v]).flags.cow implies self.owned_vpn(
                v,
            ) by {
                if heap.resident(v) {
                    assert(self.heap_areas.resident(v));
                } else {
                    assert(old(self).owned_vpn(v)) by {
                        if !old(self).owned_vpn(v) {
                            assert(heap.resident(v));
                        }
                    };
                }
            };
            assert forall|v1: VirtPageNum, v2: VirtPageNum|
                self.owned_vpn(v1) && self.owned_vpn(v2) && v1 != v2 implies (
            #[trigger] self.pt()[v1]).ppn != (#[trigger] self.pt()[v2]).ppn by {
                if heap.resident(v1) && heap.resident(v2) {
                    let k1 = choose|k: int|
                        0 <= k < heap.vpn_table@.len() && heap.vpn_table@[k] == v1;
                    let k2 = choose|k: int|
                        0 <= k < heap.vpn_table@.len() && heap.vpn_table@[k] == v2;
                    assert(self.pt()[v1].ppn == heap.data_frames@[k1].ppn);
                    assert(self.pt()[v2].ppn == heap.data_frames@[k2].ppn);
                    assert(k1 != k2);
                } else if heap.resident(v1) {
                    assert(old(self).owned_vpn(v2));
                    let k1 = choose|k: int|
                        0 <= k < heap.vpn_table@.len() && heap.vpn_table@[k] == v1;
                    assert(old(self).pt()[heap.vpn_table@[k1]].ppn != old(self).pt()[v2].ppn);
                } else if heap.resident(v2) {
                    assert(old(self).owned_vpn(v1));
                    let k2 = choose|k: int|
                        0 <= k < heap.vpn_table@.len() && heap.vpn_table@[k] == v2;
                    assert(old(self).pt()[heap.vpn_table@[k2]].ppn != old(self).pt()[v1].ppn);
                } else {
                    assert(old(self).owned_vpn(v1) && old(self).owned_vpn(v2));
                }
            };
            assert forall|j: int, v: VirtPageNum|
                0 <= j < self.page_table.node_ppns().len() && self.owned_vpn(v) implies (
            #[trigger] self.page_table.node_ppns()[j]) != (#[trigger] self.pt()[v]).ppn by {
                if heap.resident(v) {
                    let k = choose|k: int|
                        0 <= k < heap.vpn_table@.len() && heap.vpn_table@[k] == v;
                    assert(old(self).page_table.node_ppns()[j] != old(self).pt()[heap.vpn_table@[k]].ppn);
                } else {
                    assert(old(self).owned_vpn(v));
                }
            };
        }
    }

    /// Share one ordinary contiguous region (this space's region at
    /// index `i`) with the partially built `child` of a fork, recording
    /// the owning handles in a mirrored child region.
    #[verifier::rlimit(100)]
    #[verifier::spinoff_prover]
    fn fork_share_area(
        &mut self,
        child: &mut MemorySet,
        i: usize,
        a: &mut StackFrameAllocator,
        Ghost(m0): Ghost<MemorySet>,
        Ghost(a0): Ghost<StackFrameAllocator>,
        Ghost(shared): Ghost<Set<VirtPageNum>>,
    )
        requires
            m0.wf(),
            m0.counts_held(a0),
            a0.wf(),
            old(self).vm_areas == m0.vm_areas,
            i < m0.vm_areas@.len(),
            m0.vm_areas@[i as int].vpn_range.start.0 != TRAP_CONTEXT / PAGE_SIZE,
            forall|i2: int|
                0 <= i2 < m0.vm_areas@.len() ==> (#[trigger] m0.vm_areas@[i2]).map_type is Framed,
            forall|v: VirtPageNum|
                m0.owned_vpn(v) ==> a0.count((#[trigger] m0.pt()[v]).ppn) < usize::MAX - 1,
            fork_mid(m0, a0, *old(self), old(child).page_table, *old(a), shared),
            forall|v: VirtPageNum|
                #[trigger] shared.contains(v) <==> exists|i2: int|
                    0 <= i2 < i && (#[trigger] m0.vm_areas@[i2]).vpn_range.start.0 != TRAP_CONTEXT
                        / PAGE_SIZE && m0.vm_areas@[i2].vpn_range.spec_contains(v),
            old(child).wf(),
            old(child).counts_held(*old(a)),
            old(child).vm_areas@.len() == i,
            forall|i2: int|
                0 <= i2 < i ==> (#[trigger] old(child).vm_areas@[i2]).vpn_range
                    == m0.vm_areas@[i2].vpn_range && old(child).vm_areas@[i2].map_type
                    == m0.vm_areas@[i2].map_type && old(child).vm_areas@[i2].map_perm
                    == m0.vm_areas@[i2].map_perm,
            old(child).mmap_areas@.len() == 0,
            old(child).heap_range() == (VPNRange { start: VirtPageNum(0), end: VirtPageNum(0) }),
            old(child).heap_areas.vpn_table@.len() == 0,
            old(child).brk == 0 && old(child).brk_start == 0,
            forall|i2: int, v: VirtPageNum|
                0 <= i2 < i && (#[trigger] m0.vm_areas@[i2]).vpn_range.start.0 == TRAP_CONTEXT
                    / PAGE_SIZE && m0.vm_areas@[i2].vpn_range.spec_contains(v) ==> old(child).pt().dom().contains(v) && !a0.has_ref((#[trigger] old(child).pt()[v]).ppn)
                    && old(a).count(old(child).pt()[v].ppn) == 1 && old(a).manages(
                    old(child).pt()[v].ppn,
                ) && old(a).page(old(child).pt()[v].ppn) == a0.page(m0.pt()[v].ppn),
            old(a).free_frames() >= 2 * m0.vm_areas@[i as int].vpn_range.spec_len(),
        ensures
            fork_mid(
                m0,
                a0,
                *final(self),
                final(child).page_table,
                *final(a),
                shared.union(
                    range_set(
                        m0.vm_areas@[i as int].vpn_range.start.0 as int,
                        m0.vm_areas@[i as int].vpn_range.spec_len(),
                    ),
                ),
            ),
            final(self).vm_areas == m0.vm_areas,
            final(child).wf(),
            final(child).counts_held(*final(a)),
            final(child).vm_areas@.len() == i + 1,
            forall|i2: int|
                0 <= i2 < i + 1 ==> (#[trigger] final(child).vm_areas@[i2]).vpn_range
                    == m0.vm_areas@[i2].vpn_range && final(child).vm_areas@[i2].map_type
                    == m0.vm_areas@[i2].map_type && final(child).vm_areas@[i2].map_perm
                    == m0.vm_areas@[i2].map_perm,
            final(child).mmap_areas@.len() == 0,
            final(child).heap_range() == (VPNRange { start: VirtPageNum(0), end: VirtPageNum(0) }),
            final(child).heap_areas.vpn_table@.len() == 0,
            final(child).brk == 0 && final(child).brk_start == 0,
            forall|i2: int, v: VirtPageNum|
                0 <= i2 < i + 1 && (#[trigger] m0.vm_areas@[i2]).vpn_range.start.0 == TRAP_CONTEXT
                    / PAGE_SIZE && m0.vm_areas@[i2].vpn_range.spec_contains(v)
                    ==> #[trigger] final(child).pt().dom().contains(v) && !a0.has_ref(
                    final(child).pt()[v].ppn,
                ) && final(a).count(final(child).pt()[v].ppn) == 1 && final(a).manages(
                    final(child).pt()[v].ppn,
                ) && final(a).page(final(child).pt()[v].ppn) == a0.page(m0.pt()[v].ppn),
            forall|v: VirtPageNum|
                !m0.vm_areas@[i as int].vpn_range.spec_contains(v) ==> #[trigger] final(child).pt().dom().contains(v) == old(child).pt().dom().contains(v),
            forall|v: VirtPageNum|
                !m0.vm_areas@[i as int].vpn_range.spec_contains(v) && old(child).pt().dom().contains(v) ==> #[trigger] final(child).pt()[v] == old(child).pt()[v],
            forall|p: PhysPageNum| #[trigger] final(a).count(p) >= old(a).count(p),
            forall|p: PhysPageNum|
                old(a).has_ref(p) && !a0.has_ref(p) ==> #[trigger] final(a).count(p) == old(a).count(p),
            forall|p: PhysPageNum|
                old(a).manages(p) && old(a).has_ref(p) ==> #[trigger] final(a).page(p) == old(a).page(p),
            final(a).free_frames() >= old(a).free_frames() - 2 * m0.vm_areas@[
                i as int
            ].vpn_range.spec_len(),
    {
        let ghost child_it = *old(child);
        let ghost a_it = *old(a);
        let rg = self.vm_areas[i].vpn_range;
        let start = rg.get_start().0;
        let len = rg.len();
        proof {
            assert(m0.vm_areas@[i as int].vpn_range == rg);
            assert forall|k: int|
                0 <= k < len implies #[trigger] m0.owned_vpn(VirtPageNum((start + k) as usize))
                    && !m0.in_trap_area(VirtPageNum((start + k) as usize)) && !shared.contains(
                    VirtPageNum((start + k) as usize),
                ) by {
                let v = VirtPageNum((start + k) as usize);
                assert(vpn_at(rg, k) == v);
                assert(rg.spec_contains(v));
                assert(m0.owned_vpn(v)) by {
                    assert(0 <= i < m0.vm_areas@.len() && (#[trigger] m0.vm_areas@[i as int]).map_type is Framed
                        && m0.vm_areas@[i as int].vpn_range.spec_contains(v));
                };
                assert(!m0.in_trap_area(v)) by {
                    if m0.in_trap_area(v) {
                        let i3 = choose|i3: int|
                            0 <= i3 < m0.vm_areas@.len() && (#[trigger] m0.vm_areas@[i3]).vpn_range.start.0
                                == TRAP_CONTEXT / PAGE_SIZE
                                && m0.vm_areas@[i3].vpn_range.spec_contains(v);
                        assert(i3 != i as int);
                        assert(m0.all_ranges()[i3] == m0.vm_areas@[i3].vpn_range);
                        assert(m0.vm_ranges()[i as int] == m0.vm_areas@[i as int].vpn_range);
                        assert(m0.all_ranges()[i as int] == m0.vm_ranges()[i as int]);
                        assert(ranges_disjoint(
                            m0.all_ranges()[if i3 < i as int { i3 } else { i as int }],
                            m0.all_ranges()[if i3 < i as int { i as int } else { i3 }],
                        ));
                    }
                };
                assert(!shared.contains(v)) by {
                    if shared.contains(v) {
                        let i3 = choose|i3: int|
                            0 <= i3 < i && (#[trigger] m0.vm_areas@[i3]).vpn_range.start.0
                                != TRAP_CONTEXT / PAGE_SIZE
                                && m0.vm_areas@[i3].vpn_range.spec_contains(v);
                        assert(m0.all_ranges()[i3] == m0.vm_areas@[i3].vpn_range);
                        assert(m0.vm_ranges()[i as int] == m0.vm_areas@[i as int].vpn_range);
                        assert(m0.all_ranges()[i as int] == m0.vm_ranges()[i as int]);
                        assert(ranges_disjoint(m0.all_ranges()[i3], m0.all_ranges()[i as int]));
                    }
                };
            };
        }
        let mut new_area = MapArea::from_another(&self.vm_areas[i]);
        let fs = self.share_range(
            &mut child.page_table,
            start,
            len,
            a,
            Ghost(m0),
            Ghost(a0),
            Ghost(shared),
        );
        new_area.data_frames = fs;
        let ghost shared2 = shared.union(range_set(start as int, len as int));
        proof {
            assert(new_area.mapped_in(child.page_table)) by {
                assert forall|k: int|
                    0 <= k < rg.spec_len() implies child.page_table.view().dom().contains(
                    #[trigger] vpn_at(rg, k),
                ) && child.page_table.view()[vpn_at(rg, k)].ppn == new_area.data_frames@[k].ppn by {
                    let v = vpn_at(rg, k);
                    assert(v == VirtPageNum((start + k) as usize));
                    assert(shared2.contains(v)) by {
                        assert(range_set(start as int, len as int).contains(v));
                    };
                };
            };
            assert(new_area.frames_distinct()) by {
                assert forall|k1: int, k2: int|
                    0 <= k1 < k2 < new_area.data_frames@.len() implies (
                #[trigger] new_area.data_frames@[k1]).ppn != (
                #[trigger] new_area.data_frames@[k2]).ppn by {
                    let v1 = VirtPageNum((start + k1) as usize);
                    let v2 = VirtPageNum((start + k2) as usize);
                    assert(m0.owned_vpn(v1) && m0.owned_vpn(v2) && v1 != v2);
                    assert(new_area.data_frames@[k1].ppn == m0.pt()[v1].ppn);
                    assert(new_area.data_frames@[k2].ppn == m0.pt()[v2].ppn);
                };
            };
            assert(new_area.counts_held(*a)) by {
                assert forall|k: int|
                    0 <= k < new_area.data_frames@.len() implies a.count(
                    (#[trigger] new_area.data_frames@[k]).ppn,
                ) >= 1 && a.manages(new_area.data_frames@[k].ppn) by {
                    let v = VirtPageNum((start + k) as usize);
                    lemma_owned_count(m0, a0, v);
                    assert(new_area.data_frames@[k].ppn == m0.pt()[v].ppn);
                    assert(shared2.contains(v)) by {
                        assert(range_set(start as int, len as int).contains(v));
                    };
                    assert(a.count(m0.pt()[v].ppn) == a0.count(m0.pt()[v].ppn) + 1);
                };
            };
            assert forall|i2: int|
                0 <= i2 < child.all_ranges().len() implies ranges_disjoint(
                #[trigger] child.all_ranges()[i2],
                rg,
            ) by {
                if i2 < i as int {
                    assert(child.all_ranges()[i2] == child.vm_areas@[i2].vpn_range);
                    assert(m0.all_ranges()[i2] == m0.vm_areas@[i2].vpn_range);
                    assert(m0.vm_ranges()[i as int] == m0.vm_areas@[i as int].vpn_range);
                    assert(m0.all_ranges()[i as int] == m0.vm_ranges()[i as int]);
                    assert(ranges_disjoint(m0.all_ranges()[i2], m0.all_ranges()[i as int]));
                } else {
                    assert(child.all_ranges()[i2] == child.heap_range());
                }
            };
            assert forall|v: VirtPageNum, v2: VirtPageNum|
                rg.spec_contains(v) && child.owned_vpn(v2) implies (#[trigger] child.pt()[v]).ppn
                    != (#[trigger] child.pt()[v2]).ppn by {
                assert(shared2.contains(v)) by {
                    assert(range_set(start as int, len as int).contains(v));
                };
                assert(child.pt()[v].ppn == m0.pt()[v].ppn);
                assert(m0.owned_vpn(v));
                lemma_owned_count(m0, a0, v);
                lemma_child_owned_cases(m0, a0, child_it, *a, shared, v2, i as int);
                if shared.contains(v2) {
                    let i3 = choose|i3: int|
                        0 <= i3 < i && (#[trigger] m0.vm_areas@[i3]).vpn_range.start.0
                            != TRAP_CONTEXT / PAGE_SIZE && m0.vm_areas@[i3].vpn_range.spec_contains(
                            v2,
                        );
                    assert(m0.all_ranges()[i3] == m0.vm_areas@[i3].vpn_range);
                    assert(m0.vm_ranges()[i as int] == m0.vm_areas@[i as int].vpn_range);
                    assert(m0.all_ranges()[i as int] == m0.vm_ranges()[i as int]);
                    assert(ranges_disjoint(m0.all_ranges()[i3], m0.all_ranges()[i as int]));
                    assert(!rg.spec_contains(v2));
                    assert(child.pt()[v2] == child_it.pt()[v2]);
                    assert(child_it.pt()[v2].ppn == m0.pt()[v2].ppn);
                    assert(v != v2);
                } else {
                    assert(!a0.has_ref(child_it.pt()[v2].ppn));
                    let i3 = choose|i3: int|
                        0 <= i3 < child_it.vm_areas@.len() && (
                        #[trigger] child_it.vm_areas@[i3]).map_type is Framed
                            && child_it.vm_areas@[i3].vpn_range.spec_contains(v2);
                    assert(child_it.vm_areas@[i3].vpn_range == m0.vm_areas@[i3].vpn_range);
                    assert(m0.all_ranges()[i3] == m0.vm_areas@[i3].vpn_range);
                    assert(m0.vm_ranges()[i as int] == m0.vm_areas@[i as int].vpn_range);
                    assert(m0.all_ranges()[i as int] == m0.vm_ranges()[i as int]);
                    assert(ranges_disjoint(
                        m0.all_ranges()[if i3 < i as int { i3 } else { i as int }],
                        m0.all_ranges()[if i3 < i as int { i as int } else { i3 }],
                    ));
                    assert(!rg.spec_contains(v2));
                    lemma_owned_mapped(child_it, v2);
                    assert(child.pt()[v2] == child_it.pt()[v2]);
                }
            };
            assert forall|j: int, v: VirtPageNum|
                0 <= j < child.page_table.node_ppns().len() && rg.spec_contains(
                    v,
                ) implies #[trigger] child.page_table.node_ppns()[j] != (
            #[trigger] child.pt()[v]).ppn by {
                assert(shared2.contains(v)) by {
                    assert(range_set(start as int, len as int).contains(v));
                };
                assert(child.pt()[v].ppn == m0.pt()[v].ppn);
                assert(m0.owned_vpn(v));
                lemma_owned_count(m0, a0, v);
                assert(!a0.has_ref(child.page_table.node_ppns()[j]));
            };
            lemma_child_after_share(
                m0,
                a0,
                child_it,
                *child,
                a_it,
                *a,
                shared2,
                i as int,
                rg,
                start,
                len,
            );
        }
        child.push_mapped_area(new_area, a);
        proof {
            // frames live at entry kept their count unless they back the
            // run, and their contents throughout
            assert forall|p: PhysPageNum|
                old(a).has_ref(p) && !a0.has_ref(p) implies #[trigger] a.count(p) == old(a).count(
                p,
            ) by {
                assert forall|k: int|
                    0 <= k < len implies (#[trigger] m0.pt()[VirtPageNum(
                        (start + k) as usize,
                    )]).ppn != p by {
                    let v = VirtPageNum((start + k) as usize);
                    assert(m0.owned_vpn(v));
                    lemma_owned_count(m0, a0, v);
                };
            };
            assert forall|i2: int, v: VirtPageNum|
                0 <= i2 < i + 1 && (#[trigger] m0.vm_areas@[i2]).vpn_range.start.0 == TRAP_CONTEXT
                    / PAGE_SIZE && m0.vm_areas@[i2].vpn_range.spec_contains(
                    v,
                ) implies #[trigger] child.pt().dom().contains(v) && !a0.has_ref(
                child.pt()[v].ppn,
            ) && a.count(child.pt()[v].ppn) == 1 && a.manages(child.pt()[v].ppn) && a.page(
                child.pt()[v].ppn,
            ) == a0.page(m0.pt()[v].ppn) by {
                assert(i2 != i as int);
                assert(m0.all_ranges()[i2] == m0.vm_areas@[i2].vpn_range);
                assert(m0.vm_ranges()[i as int] == m0.vm_areas@[i as int].vpn_range);
                assert(m0.all_ranges()[i as int] == m0.vm_ranges()[i as int]);
                assert(m0.all_ranges()[i as int] == rg);
                assert(ranges_disjoint(
                    m0.all_ranges()[if i2 < i as int { i2 } else { i as int }],
                    m0.all_ranges()[if i2 < i as int { i as int } else { i2 }],
                ));
                assert(!rg.spec_contains(v));
                let tp = child_it.pt()[v].ppn;
                assert(child_it.pt().dom().contains(v));
                assert(child.pt()[v] == child_it.pt()[v]);
                assert(a_it.count(tp) == 1 && a_it.manages(tp) && a_it.page(tp) == a0.page(
                    m0.pt()[v].ppn,
                ));
                assert(a.count(tp) == a_it.count(tp)) by {
                    assert(a_it.has_ref(tp));
                    assert forall|k: int|
                        0 <= k < len implies (#[trigger] m0.pt()[VirtPageNum(
                            (start + k) as usize,
                        )]).ppn != tp by {
                        let v2 = VirtPageNum((start + k) as usize);
                        assert(m0.owned_vpn(v2));
                        lemma_owned_count(m0, a0, v2);
                    };
                };
                assert(a.page(tp) == a_it.page(tp));
                assert(a.manages(tp));
            };
        }
    }

    /// A copy of a resident-page table, for handing the parent's list to
    /// the sharing loop while the parent is borrowed mutably.
    fn copy_vpn_table(t: &Vec<VirtPageNum>) -> (r: Vec<VirtPageNum>)
        ensures
            r@ == t@,
    {
        let mut r: Vec<VirtPageNum> = Vec::new();
        let n = t.len();
        let mut k: usize = 0;
        while k < n
            invariant
                k <= n,
                n == t@.len(),
                r@ == t@.take(k as int),
            decreases n - k,
        {
            r.push(t[k]);
            proof {
                assert(r@ =~= t@.take(k as int + 1));
            }
            k += 1;
        }
        proof {
            assert(r@ =~= t@);
        }
        r
    }

    /// Reproduce the mmap region at index `j` of this space (the parent of
    /// a fork) in the partially built `child`: the declared bounds and
    /// permission, with every resident page shared copy-on-write.
    fn fork_share_chunk(
        &mut self,
        child: &mut MemorySet,
        j: usize,
        a: &mut StackFrameAllocator,
        Ghost(m0): Ghost<MemorySet>,
        Ghost(a0): Ghost<StackFrameAllocator>,
        Ghost(shared): Ghost<Set<VirtPageNum>>,
    )
        requires
            m0.wf(),
            m0.counts_held(a0),
            a0.wf(),
            old(self).mmap_areas == m0.mmap_areas,
            j < m0.mmap_areas@.len(),
            forall|v: VirtPageNum|
                m0.owned_vpn(v) ==> a0.count((#[trigger] m0.pt()[v]).ppn) < usize::MAX - 1,
            fork_mid(m0, a0, *old(self), old(child).page_table, *old(a), shared),
            // no page of this chunk has been shared yet
            forall|k: int|
                0 <= k < m0.mmap_areas@[j as int].vpn_table@.len() ==> !shared.contains(
                    #[trigger] m0.mmap_areas@[j as int].vpn_table@[k],
                ),
            old(child).wf(),
            old(child).counts_held(*old(a)),
            old(child).vm_areas@.len() == m0.vm_areas@.len(),
            old(child).mmap_areas@.len() == j,
            forall|j2: int|
                0 <= j2 < j ==> (#[trigger] old(child).mmap_areas@[j2]).vpn_range
                    == m0.mmap_areas@[j2].vpn_range,
            old(child).heap_range() == (VPNRange { start: VirtPageNum(0), end: VirtPageNum(0) }),
            old(child).heap_areas.vpn_table@.len() == 0,
            old(child).brk == 0 && old(child).brk_start == 0,
            forall|i2: int|
                0 <= i2 < m0.vm_areas@.len() ==> (#[trigger] old(child).vm_areas@[i2]).vpn_range
                    == m0.vm_areas@[i2].vpn_range,
            // every page the child owns is a shared one on the parent's
            // frame, or sits on a frame nobody referenced at entry
            forall|v2: VirtPageNum|
                #[trigger] old(child).owned_vpn(v2) ==> old(child).pt().dom().contains(v2) && (
                (shared.contains(v2) && old(child).pt()[v2].ppn == m0.pt()[v2].ppn
                    && m0.owned_vpn(v2)) || !a0.has_ref(old(child).pt()[v2].ppn)),
            old(a).free_frames() >= 2 * m0.mmap_areas@[j as int].vpn_table@.len(),
        ensures
            fork_mid(
                m0,
                a0,
                *final(self),
                final(child).page_table,
                *final(a),
                shared.union(
                    listed_set(
                        m0.mmap_areas@[j as int].vpn_table@,
                        m0.mmap_areas@[j as int].vpn_table@.len() as int,
                    ),
                ),
            ),
            final(child).wf(),
            final(child).counts_held(*final(a)),
            final(child).vm_areas == old(child).vm_areas,
            final(child).mmap_areas@.len() == j + 1,
            forall|j2: int|
                0 <= j2 < j ==> #[trigger] final(child).mmap_areas@[j2] == old(child).mmap_areas@[j2],
            final(child).mmap_areas@[j as int].vpn_range == m0.mmap_areas@[j as int].vpn_range,
            final(child).mmap_areas@[j as int].map_perm == m0.mmap_areas@[j as int].map_perm,
            final(child).mmap_areas@[j as int].vpn_table@ == m0.mmap_areas@[j as int].vpn_table@,
            final(child).heap_range() == (VPNRange { start: VirtPageNum(0), end: VirtPageNum(0) }),
            final(child).heap_areas.vpn_table@.len() == 0,
            final(child).brk == 0 && final(child).brk_start == 0,
            // pages off the chunk's list keep their child mapping
            forall|v: VirtPageNum|
                !listed_set(
                    m0.mmap_areas@[j as int].vpn_table@,
                    m0.mmap_areas@[j as int].vpn_table@.len() as int,
                ).contains(v) ==> #[trigger] final(child).pt().dom().contains(v) == old(child).pt().dom().contains(v),
            forall|v: VirtPageNum|
                !listed_set(
                    m0.mmap_areas@[j as int].vpn_table@,
                    m0.mmap_areas@[j as int].vpn_table@.len() as int,
                ).contains(v) && old(child).pt().dom().contains(v) ==> #[trigger] final(child).pt()[v] == old(child).pt()[v],
            // the owned classification carries over to the grown set
            forall|v2: VirtPageNum|
                #[trigger] final(child).owned_vpn(v2) ==> final(child).pt().dom().contains(v2) && (
                (shared.union(
                    listed_set(
                        m0.mmap_areas@[j as int].vpn_table@,
                        m0.mmap_areas@[j as int].vpn_table@.len() as int,
                    ),
                ).contains(v2) && final(child).pt()[v2].ppn == m0.pt()[v2].ppn && m0.owned_vpn(v2))
                    || !a0.has_ref(final(child).pt()[v2].ppn)),
            forall|p: PhysPageNum| #[trigger] final(a).count(p) >= old(a).count(p),
            forall|p: PhysPageNum|
                old(a).has_ref(p) && !a0.has_ref(p) ==> #[trigger] final(a).count(p) == old(a).count(p),
            forall|p: PhysPageNum|
                old(a).manages(p) && old(a).has_ref(p) ==> #[trigger] final(a).page(p) == old(a).page(p),
            final(a).free_frames() >= old(a).free_frames() - 2 * m0.mmap_areas@[
                j as int
            ].vpn_table@.len(),
    {
        let ghost child_it = *old(child);
        let ghost a_it = *old(a);
        let ghost crg = m0.mmap_areas@[j as int].vpn_range;
        let ghost tblg = m0.mmap_areas@[j as int].vpn_table@;
        let ghost nvm = m0.vm_areas@.len() as int;
        let parent_tbl = MemorySet::copy_vpn_table(&self.mmap_areas[j].vpn_table);
        proof {
            assert(self.mmap_areas@[j as int] == m0.mmap_areas@[j as int]);
            assert(parent_tbl@ == tblg);
            assert(m0.mmap_areas@[j as int].mapped_in(m0.page_table));
            assert(m0.all_ranges()[nvm + j as int] == crg);
            // each listed page is owned, outside the trap-context region,
            // and not yet shared
            assert forall|k: int|
                0 <= k < tblg.len() implies #[trigger] m0.owned_vpn(tblg[k]) && !m0.in_trap_area(
                tblg[k],
            ) && !shared.contains(tblg[k]) by {
                let v = tblg[k];
                assert(m0.owned_vpn(v)) by {
                    assert(m0.mmap_areas@[j as int].resident(v));
                    assert(0 <= j < m0.mmap_areas@.len() && (#[trigger] m0.mmap_areas@[
                        j as int
                    ]).resident(v));
                };
                assert(crg.spec_contains(v));
                assert(!m0.in_trap_area(v)) by {
                    if m0.in_trap_area(v) {
                        let i3 = choose|i3: int|
                            0 <= i3 < m0.vm_areas@.len() && (#[trigger] m0.vm_areas@[i3]).vpn_range.start.0
                                == TRAP_CONTEXT / PAGE_SIZE
                                && m0.vm_areas@[i3].vpn_range.spec_contains(v);
                        assert(m0.all_ranges()[i3] == m0.vm_areas@[i3].vpn_range);
                        assert(ranges_disjoint(m0.all_ranges()[i3], m0.all_ranges()[nvm + j as int]));
                    }
                };
            };
            // the listed pages are pairwise distinct
            assert forall|k1: int, k2: int|
                0 <= k1 < k2 < tblg.len() implies #[trigger] tblg[k1] != #[trigger] tblg[k2] by {};
        }
        let mut new_chunk = ChunkArea::from_another(&self.mmap_areas[j]);
        let fs = self.share_listed(
            &mut child.page_table,
            &parent_tbl,
            a,
            Ghost(m0),
            Ghost(a0),
            Ghost(shared),
        );
        new_chunk.vpn_table = parent_tbl;
        new_chunk.data_frames = fs;
        let ghost shared2 = shared.union(listed_set(tblg, tblg.len() as int));
        proof {
            assert forall|k: int| 0 <= k < tblg.len() implies #[trigger] shared2.contains(
                tblg[k],
            ) by {
                assert(listed_set(tblg, tblg.len() as int).contains(tblg[k]));
            };
            assert(new_chunk.mapped_in(child.page_table)) by {
                assert forall|k: int|
                    0 <= k < tblg.len() implies child.page_table.view().dom().contains(
                    #[trigger] new_chunk.vpn_table@[k],
                ) && child.page_table.view()[new_chunk.vpn_table@[k]].ppn
                    == new_chunk.data_frames@[k].ppn by {
                    assert(shared2.contains(tblg[k]));
                };
            };
            assert(new_chunk.frames_distinct()) by {
                assert forall|k1: int, k2: int|
                    0 <= k1 < k2 < new_chunk.data_frames@.len() implies (
                #[trigger] new_chunk.data_frames@[k1]).ppn != (
                #[trigger] new_chunk.data_frames@[k2]).ppn by {
                    assert(m0.owned_vpn(tblg[k1]) && m0.owned_vpn(tblg[k2]) && tblg[k1]
                        != tblg[k2]);
                    assert(new_chunk.data_frames@[k1].ppn == m0.pt()[tblg[k1]].ppn);
                    assert(new_chunk.data_frames@[k2].ppn == m0.pt()[tblg[k2]].ppn);
                };
            };
            assert(new_chunk.counts_held(*a)) by {
                assert forall|k: int|
                    0 <= k < new_chunk.data_frames@.len() implies a.count(
                    (#[trigger] new_chunk.data_frames@[k]).ppn,
                ) >= 1 && a.manages(new_chunk.data_frames@[k].ppn) by {
                    let v = tblg[k];
                    lemma_owned_count(m0, a0, v);
                    assert(shared2.contains(v));
                    assert(a.count(m0.pt()[v].ppn) == a0.count(m0.pt()[v].ppn) + 1);
                };
            };
            // the chunk's range lies apart from every region the child
            // already holds
            assert forall|i2: int|
                0 <= i2 < child_it.all_ranges().len() implies ranges_disjoint(
                #[trigger] child_it.all_ranges()[i2],
                crg,
            ) by {
                if i2 < nvm {
                    assert(child_it.all_ranges()[i2] == child_it.vm_areas@[i2].vpn_range);
                    assert(m0.all_ranges()[i2] == m0.vm_areas@[i2].vpn_range);
                    assert(ranges_disjoint(m0.all_ranges()[i2], m0.all_ranges()[nvm + j as int]));
                } else if i2 < nvm + j as int {
                    assert(child_it.all_ranges()[i2] == child_it.mmap_areas@[i2 - nvm].vpn_range);
                    assert(m0.all_ranges()[i2] == m0.mmap_areas@[i2 - nvm].vpn_range);
                    assert(ranges_disjoint(m0.all_ranges()[i2], m0.all_ranges()[nvm + j as int]));
                } else {
                    assert(child_it.all_ranges()[i2] == child_it.heap_range());
                }
            };
            lemma_child_after_share_set(
                m0,
                a0,
                child_it,
                *child,
                a_it,
                *a,
                shared2,
                listed_set(tblg, tblg.len() as int),
                crg,
            );
            // a mark no region accounts for yet sits on a listed page
            assert forall|v: VirtPageNum|
                child.pt().dom().contains(v) && (#[trigger] child.pt()[v]).flags.cow
                    && !child.owned_vpn(v) implies new_chunk.resident(v) by {
                if !listed_set(tblg, tblg.len() as int).contains(v) {
                    assert(child.pt()[v] == child_it.pt()[v]);
                    assert(child_it.owned_vpn(v));
                    lemma_owned_grows_vm(child_it, *child, v);
                } else {
                    let k = choose|k: int| 0 <= k < tblg.len() && tblg[k] == v;
                    assert(new_chunk.vpn_table@[k] == v);
                }
            };
            // no listed page's frame doubles as another owned page's frame
            // or a table node of the child
            assert forall|k: int, v2: VirtPageNum|
                0 <= k < new_chunk.vpn_table@.len() && child.owned_vpn(v2) implies (
            #[trigger] child.pt()[new_chunk.vpn_table@[k]]).ppn != (#[trigger] child.pt()[v2]).ppn by {
                let v = tblg[k];
                assert(shared2.contains(v));
                assert(child.pt()[v].ppn == m0.pt()[v].ppn);
                assert(m0.owned_vpn(v));
                lemma_owned_count(m0, a0, v);
                assert(child_it.owned_vpn(v2));
                assert(!crg.spec_contains(v2) && child.pt()[v2] == child_it.pt()[v2]) by {
                    lemma_owned_in_a_range(child_it, v2, crg);
                    assert(!listed_set(tblg, tblg.len() as int).contains(v2));
                    lemma_owned_mapped(child_it, v2);
                };
                assert(v2 != v);
                if shared.contains(v2) && child_it.pt()[v2].ppn == m0.pt()[v2].ppn
                    && m0.owned_vpn(v2) {
                    assert(m0.pt()[v2].ppn != m0.pt()[v].ppn);
                } else {
                    assert(!a0.has_ref(child_it.pt()[v2].ppn));
                }
            };
            assert forall|j2: int, k: int|
                0 <= j2 < child.page_table.node_ppns().len() && 0 <= k
                    < new_chunk.vpn_table@.len() implies #[trigger] child.page_table.node_ppns()[j2]
                    != (#[trigger] child.pt()[new_chunk.vpn_table@[k]]).ppn by {
                let v = tblg[k];
                assert(shared2.contains(v));
                assert(child.pt()[v].ppn == m0.pt()[v].ppn);
                assert(m0.owned_vpn(v));
                lemma_owned_count(m0, a0, v);
                assert(!a0.has_ref(child.page_table.node_ppns()[j2]));
            };
        }
        let ghost child_prepush = *child;
        child.push_mapped_chunk(new_chunk, a);
        proof {
            assert(child.page_table == child_prepush.page_table);
            assert(child.pt() == child_prepush.pt());
            assert(child.mmap_areas@ =~= child_it.mmap_areas@.push(new_chunk));
            // the classification holds of the grown owned set
            assert forall|v2: VirtPageNum| #[trigger] child.owned_vpn(v2) implies child.pt().dom().contains(
                v2,
            ) && ((shared2.contains(v2) && child.pt()[v2].ppn == m0.pt()[v2].ppn && m0.owned_vpn(
                v2,
            )) || !a0.has_ref(child.pt()[v2].ppn)) by {
                if new_chunk.resident(v2) {
                    let k = choose|k: int| 0 <= k < tblg.len() && tblg[k] == v2;
                    assert(shared2.contains(tblg[k]));
                    assert(child.pt()[v2].ppn == m0.pt()[v2].ppn);
                    assert(m0.owned_vpn(tblg[k]));
                } else {
                    assert(child_prepush.owned_vpn(v2)) by {
                        if exists|j3: int|
                            0 <= j3 < child.mmap_areas@.len() && (#[trigger] child.mmap_areas@[j3]).resident(
                            v2) {
                            let j3 = choose|j3: int|
                                0 <= j3 < child.mmap_areas@.len() && (
                                #[trigger] child.mmap_areas@[j3]).resident(v2);
                            assert(j3 < j);
                            assert(child_prepush.mmap_areas@[j3].resident(v2));
                            assert(0 <= j3 < child_prepush.mmap_areas@.len() && (
                            #[trigger] child_prepush.mmap_areas@[j3]).resident(v2));
                        }
                    };
                    assert(child_it.owned_vpn(v2));
                    assert(!crg.spec_contains(v2) && child.pt()[v2] == child_it.pt()[v2]) by {
                        lemma_owned_in_a_range(child_it, v2, crg);
                        assert(!listed_set(tblg, tblg.len() as int).contains(v2));
                        lemma_owned_mapped(child_it, v2);
                    };
                }
            };
        }
    }

    /// Reproduce the trap-context region of `parent` (its region at index
    /// `i`) in the partially built `child` of a fork: map fresh frames
    /// and copy the parent's bytes into them at once, because both sides
    /// resume through this page without a mediating fault.
    #[verifier::rlimit(100)]
    #[verifier::spinoff_prover]
    fn fork_copy_trap_area(
        user_space: &MemorySet,
        child: &mut MemorySet,
        i: usize,
        a: &mut StackFrameAllocator,
        Ghost(m0): Ghost<MemorySet>,
        Ghost(a0): Ghost<StackFrameAllocator>,
        Ghost(shared): Ghost<Set<VirtPageNum>>,
    )
        requires
            m0.wf(),
            m0.counts_held(a0),
            a0.wf(),
            user_space.vm_areas == m0.vm_areas,
            i < m0.vm_areas@.len(),
            m0.vm_areas@[i as int].vpn_range.start.0 == TRAP_CONTEXT / PAGE_SIZE,
            forall|i2: int|
                0 <= i2 < m0.vm_areas@.len() ==> (#[trigger] m0.vm_areas@[i2]).map_type is Framed,
            forall|v: VirtPageNum|
                m0.owned_vpn(v) ==> a0.count((#[trigger] m0.pt()[v]).ppn) < usize::MAX - 1,
            fork_mid(m0, a0, *user_space, old(child).page_table, *old(a), shared),
            old(child).wf(),
            old(child).counts_held(*old(a)),
            old(child).vm_areas@.len() == i,
            forall|i2: int|
                0 <= i2 < i ==> (#[trigger] old(child).vm_areas@[i2]).vpn_range
                    == m0.vm_areas@[i2].vpn_range && old(child).vm_areas@[i2].map_type
                    == m0.vm_areas@[i2].map_type && old(child).vm_areas@[i2].map_perm
                    == m0.vm_areas@[i2].map_perm,
            old(child).mmap_areas@.len() == 0,
            old(child).heap_range() == (VPNRange { start: VirtPageNum(0), end: VirtPageNum(0) }),
            old(child).heap_areas.vpn_table@.len() == 0,
            old(child).brk == 0 && old(child).brk_start == 0,
            forall|i2: int, v: VirtPageNum|
                0 <= i2 < i && (#[trigger] m0.vm_areas@[i2]).vpn_range.start.0 == TRAP_CONTEXT
                    / PAGE_SIZE && m0.vm_areas@[i2].vpn_range.spec_contains(v) ==> #[trigger] old(child).pt().dom().contains(v) && !a0.has_ref(old(child).pt()[v].ppn) && old(a).count(
                    old(child).pt()[v].ppn,
                ) == 1 && old(a).manages(old(child).pt()[v].ppn) && old(a).page(
                    old(child).pt()[v].ppn,
                ) == a0.page(m0.pt()[v].ppn),
            old(a).free_frames() >= 3 * m0.vm_areas@[i as int].vpn_range.spec_len(),
        ensures
            fork_mid(m0, a0, *user_space, final(child).page_table, *final(a), shared),
            final(child).wf(),
            final(child).counts_held(*final(a)),
            final(child).vm_areas@.len() == i + 1,
            forall|i2: int|
                0 <= i2 < i + 1 ==> (#[trigger] final(child).vm_areas@[i2]).vpn_range
                    == m0.vm_areas@[i2].vpn_range && final(child).vm_areas@[i2].map_type
                    == m0.vm_areas@[i2].map_type && final(child).vm_areas@[i2].map_perm
                    == m0.vm_areas@[i2].map_perm,
            final(child).mmap_areas@.len() == 0,
            final(child).heap_range() == (VPNRange { start: VirtPageNum(0), end: VirtPageNum(0) }),
            final(child).heap_areas.vpn_table@.len() == 0,
            final(child).brk == 0 && final(child).brk_start == 0,
            forall|i2: int, v: VirtPageNum|
                0 <= i2 < i + 1 && (#[trigger] m0.vm_areas@[i2]).vpn_range.start.0 == TRAP_CONTEXT
                    / PAGE_SIZE && m0.vm_areas@[i2].vpn_range.spec_contains(v)
                    ==> #[trigger] final(child).pt().dom().contains(v) && !a0.has_ref(
                    final(child).pt()[v].ppn,
                ) && final(a).count(final(child).pt()[v].ppn) == 1 && final(a).manages(
                    final(child).pt()[v].ppn,
                ) && final(a).page(final(child).pt()[v].ppn) == a0.page(m0.pt()[v].ppn),
            forall|v: VirtPageNum|
                !m0.vm_areas@[i as int].vpn_range.spec_contains(v) ==> #[trigger] final(child).pt().dom().contains(v) == old(child).pt().dom().contains(v),
            forall|v: VirtPageNum|
                !m0.vm_areas@[i as int].vpn_range.spec_contains(v) && old(child).pt().dom().contains(v) ==> #[trigger] final(child).pt()[v] == old(child).pt()[v],
            forall|p: PhysPageNum| #[trigger] final(a).count(p) >= old(a).count(p),
            forall|p: PhysPageNum|
                old(a).has_ref(p) ==> #[trigger] final(a).count(p) == old(a).count(p),
            forall|p: PhysPageNum|
                old(a).manages(p) && old(a).has_ref(p) ==> #[trigger] final(a).page(p) == old(a).page(p),
            final(a).free_frames() >= old(a).free_frames() - 3 * m0.vm_areas@[
                i as int
            ].vpn_range.spec_len(),
    {
        let ghost child_it = *old(child);
        let ghost a_it = *old(a);
        let rg = user_space.vm_areas[i].vpn_range;
        let start = rg.get_start().0;
        let len = rg.len();
        proof {
            assert(m0.vm_areas@[i as int].vpn_range == rg);
            assert forall|k: int| 0 <= k < len implies #[trigger] m0.owned_vpn(
                VirtPageNum((start + k) as usize),
            ) by {
                assert(vpn_at(rg, k) == VirtPageNum((start + k) as usize));
                assert(0 <= i < m0.vm_areas@.len() && (#[trigger] m0.vm_areas@[i as int]).map_type is Framed
                    && m0.vm_areas@[i as int].vpn_range.spec_contains(
                    VirtPageNum((start + k) as usize),
                ));
            };
        }
        // the trap-context region: fresh frames, copied bytes
        let new_area = MapArea::from_another(&user_space.vm_areas[i]);
        proof {
            assert forall|i2: int|
                0 <= i2 < child.all_ranges().len() implies ranges_disjoint(
                #[trigger] child.all_ranges()[i2],
                rg,
            ) by {
                if i2 < i as int {
                    assert(child.all_ranges()[i2] == child.vm_areas@[i2].vpn_range);
                    assert(m0.all_ranges()[i2] == m0.vm_areas@[i2].vpn_range);
                    assert(m0.vm_ranges()[i as int] == m0.vm_areas@[i as int].vpn_range);
                    assert(m0.all_ranges()[i as int] == m0.vm_ranges()[i as int]);
                    assert(ranges_disjoint(m0.all_ranges()[i2], m0.all_ranges()[i as int]));
                } else {
                    assert(child.all_ranges()[i2] == child.heap_range());
                }
            };
        }
        child.push(new_area, None, a);
        let mut k: usize = 0;
        let ghost a_tc = *a;
        let ghost child_tc = child;
        proof {
            assert(child.vm_ranges() == child_it.vm_ranges().push(rg));
            assert(child.vm_ranges()[i as int] == rg);
            assert(child.vm_areas@.len() == i + 1);
            assert(child.vm_areas@[i as int].vpn_range == rg);
            assert forall|i2: int, v: VirtPageNum|
                0 <= i2 < i && (#[trigger] m0.vm_areas@[i2]).vpn_range.start.0 == TRAP_CONTEXT
                    / PAGE_SIZE && m0.vm_areas@[i2].vpn_range.spec_contains(
                    v,
                ) implies #[trigger] child.pt().dom().contains(v) && !a0.has_ref(
                child.pt()[v].ppn,
            ) by {
                assert(m0.all_ranges()[i2] == m0.vm_areas@[i2].vpn_range);
                assert(m0.vm_ranges()[i as int] == m0.vm_areas@[i as int].vpn_range);
                assert(m0.all_ranges()[i as int] == m0.vm_ranges()[i as int]);
                assert(m0.vm_areas@[i as int].vpn_range == rg);
                assert(ranges_disjoint(m0.all_ranges()[i2], m0.all_ranges()[i as int]));
                assert(!rg.spec_contains(v));
                assert(child_it.pt().dom().contains(v));
                let tp = child_it.pt()[v].ppn;
                assert(!a0.has_ref(tp));
                assert(child.pt()[v] == child_it.pt()[v]);
            };
            assert forall|k2: int|
                0 <= k2 < len implies child.pt().dom().contains(
                #[trigger] vpn_at(rg, k2),
            ) && !a_it.has_ref(child.pt()[vpn_at(rg, k2)].ppn) && a.count(
                child.pt()[vpn_at(rg, k2)].ppn,
            ) == 1 && a.manages(child.pt()[vpn_at(rg, k2)].ppn) by {
                let v = vpn_at(rg, k2);
                assert(rg.spec_contains(v));
                assert(child.vm_areas@[i as int].mapped_in(child.page_table));
                assert(vpn_at(child.vm_areas@[i as int].vpn_range, k2) == v);
                assert(child.pt()[v].ppn == child.vm_areas@[i as int].data_frames@[k2].ppn);
                assert(child.vm_areas@[i as int].counts_held(*a));
            };
        }
        while k < len
            invariant
                k <= len,
                len == rg.spec_len(),
                start == rg.start.0,
                start + len <= usize::MAX,
                m0.wf(),
                m0.counts_held(a0),
                a0.wf(),
                child == child_tc,
                child.wf(),
                i < m0.vm_areas@.len(),
                m0.vm_areas@[i as int].vpn_range == rg,
                forall|i2: int|
                    0 <= i2 < m0.vm_areas@.len() ==> (#[trigger] m0.vm_areas@[i2]).map_type is Framed,
                child.vm_areas@.len() == i + 1,
                child.vm_areas@[i as int].vpn_range == rg,
                child.vm_areas@[i as int].map_type is Framed,
                forall|i2: int|
                    0 <= i2 < i ==> (#[trigger] child.vm_areas@[i2]).vpn_range
                        == m0.vm_areas@[i2].vpn_range && child.vm_areas@[i2].map_type
                        == m0.vm_areas@[i2].map_type,
                user_space.page_table.wf(),
                a.wf(),
                forall|p: PhysPageNum| #[trigger] a_it.count(p) >= a0.count(p),
                a.spec_base() == a_tc.spec_base() && a.spec_end() == a_tc.spec_end(),
                a_tc.spec_base() == a0.spec_base() && a_tc.spec_end() == a0.spec_end(),
                a_it.spec_base() == a0.spec_base() && a_it.spec_end() == a0.spec_end(),
                forall|p: PhysPageNum| #[trigger] a.count(p) == a_tc.count(p),
                a.free_frames() == a_tc.free_frames(),
                a.spec_next_free() == a_tc.spec_next_free(),
                forall|k2: int|
                    0 <= k2 < len ==> #[trigger] m0.owned_vpn(VirtPageNum((start + k2) as usize)),
                forall|k2: int|
                    0 <= k2 < len ==> child.pt().dom().contains(#[trigger] vpn_at(rg, k2))
                        && !a_it.has_ref(child.pt()[vpn_at(rg, k2)].ppn) && a.count(
                        child.pt()[vpn_at(rg, k2)].ppn,
                    ) == 1 && a.manages(child.pt()[vpn_at(rg, k2)].ppn),
                forall|v: VirtPageNum|
                    m0.pt().dom().contains(v) ==> #[trigger] user_space.pt()[v].ppn
                        == m0.pt()[v].ppn,
                user_space.pt().dom() == m0.pt().dom(),
                forall|p: PhysPageNum| #[trigger] a.count(p) >= a0.count(p),
                forall|p: PhysPageNum|
                    a0.manages(p) && a0.has_ref(p) ==> #[trigger] a.page(p) == a0.page(p),
                forall|p: PhysPageNum|
                    a_it.manages(p) && a_it.has_ref(p) ==> #[trigger] a.page(p) == a_tc.page(p),
                forall|k2: int|
                    0 <= k2 < k ==> a.page((#[trigger] child.pt()[vpn_at(rg, k2)]).ppn) == a0.page(
                        m0.pt()[vpn_at(rg, k2)].ppn,
                    ),
            decreases len - k,
        {
            let vpn = VirtPageNum(start + k);
            proof {
                assert(vpn_at(rg, k as int) == vpn);
                assert(m0.owned_vpn(VirtPageNum((start + (k as int)) as usize)));
                assert(m0.owned_vpn(vpn));
                lemma_owned_count(m0, a0, vpn);
                assert(a0.manages(m0.pt()[vpn].ppn) && a0.has_ref(m0.pt()[vpn].ppn));
                assert(a.count(m0.pt()[vpn].ppn) >= a0.count(m0.pt()[vpn].ppn));
            }
            let src_ppn = user_space.page_table.translate(vpn).unwrap().ppn();
            let dst_ppn = child.page_table.translate(vpn).unwrap().ppn();
            let ghost a_cp = *a;
            proof {
                assert(src_ppn == m0.pt()[vpn].ppn);
                assert(!a_it.has_ref(dst_ppn));
                assert(!a0.has_ref(dst_ppn)) by {
                    assert(a_it.count(dst_ppn) >= a0.count(dst_ppn));
                };
                assert(src_ppn != dst_ppn);
                assert(a.manages(src_ppn)) by {
                    assert(a0.manages(src_ppn));
                };
                assert(a.manages(dst_ppn));
            }
            crate::frame_allocator::copy_page(a, src_ppn, dst_ppn);
            proof {
                assert forall|k2: int|
                    0 <= k2 < k + 1 implies a.page(
                    (#[trigger] child.pt()[vpn_at(rg, k2)]).ppn,
                ) == a0.page(m0.pt()[vpn_at(rg, k2)].ppn) by {
                    if k2 < k {
                        assert(child.pt()[vpn_at(rg, k2)].ppn != dst_ppn) by {
                            assert(vpn_at(rg, k2) != vpn);
                            assert(child.owned_vpn(vpn_at(rg, k2))) by {
                                assert(0 <= i < child.vm_areas@.len() && (
                                #[trigger] child.vm_areas@[i as int]).map_type is Framed
                                    && child.vm_areas@[i as int].vpn_range.spec_contains(
                                    vpn_at(rg, k2),
                                ));
                            };
                            assert(child.owned_vpn(vpn)) by {
                                assert(0 <= i < child.vm_areas@.len() && (
                                #[trigger] child.vm_areas@[i as int]).map_type is Framed
                                    && child.vm_areas@[i as int].vpn_range.spec_contains(vpn));
                            };
                        };
                        assert(a.page(child.pt()[vpn_at(rg, k2)].ppn) == a_cp.page(
                            child.pt()[vpn_at(rg, k2)].ppn,
                        ));
                    } else {
                        assert(a_cp.page(src_ppn) == a0.page(m0.pt()[vpn].ppn));
                    }
                };
                assert forall|p: PhysPageNum|
                    a0.manages(p) && a0.has_ref(p) implies #[trigger] a.page(p) == a0.page(p) by {
                    assert(p != dst_ppn) by {
                        assert(!a_it.has_ref(dst_ppn));
                        assert(a_it.count(dst_ppn) >= a0.count(dst_ppn));
                    };
                    assert(a.page(p) == a_cp.page(p));
                };
                assert forall|p: PhysPageNum|
                    a_it.manages(p) && a_it.has_ref(p) implies #[trigger] a.page(p) == a_tc.page(
                    p,
                ) by {
                    assert(p != dst_ppn) by {
                        assert(!a_it.has_ref(dst_ppn));
                    };
                    assert(a_cp.spec_base() == a_it.spec_base() && a_cp.spec_end()
                        == a_it.spec_end()) by {
                        assert(a_it.spec_base() == a0.spec_base() && a_it.spec_end()
                            == a0.spec_end());
                    };
                    assert(a_cp.manages(p));
                    assert(a_cp.page(p) == a_tc.page(p));
                    assert(a.page(p) == a_cp.page(p));
                };
            }
            k += 1;
        }
        proof {
            assert forall|i2: int, v: VirtPageNum|
                0 <= i2 < i + 1 && (#[trigger] m0.vm_areas@[i2]).vpn_range.start.0 == TRAP_CONTEXT
                    / PAGE_SIZE && m0.vm_areas@[i2].vpn_range.spec_contains(
                    v,
                ) implies #[trigger] child.pt().dom().contains(v) && !a0.has_ref(
                child.pt()[v].ppn,
            ) && a.count(child.pt()[v].ppn) == 1 && a.manages(child.pt()[v].ppn) && a.page(
                child.pt()[v].ppn,
            ) == a0.page(m0.pt()[v].ppn) by {
                if i2 == i as int {
                    let k2 = v.0 - start;
                    assert(vpn_at(rg, k2 as int) == v);
                    assert(!a_it.has_ref(child.pt()[vpn_at(rg, k2 as int)].ppn));
                    assert(a_it.count(child.pt()[v].ppn) >= a0.count(child.pt()[v].ppn));
                    assert(a.page(child.pt()[vpn_at(rg, k2 as int)].ppn) == a0.page(
                        m0.pt()[vpn_at(rg, k2 as int)].ppn,
                    ));
                } else {
                    let q = child_it.pt()[v].ppn;
                    assert(child_it.pt().dom().contains(v));
                    assert(ranges_disjoint(
                        m0.all_ranges()[if i2 < i as int { i2 } else { i as int }],
                        m0.all_ranges()[if i2 < i as int { i as int } else { i2 }],
                    )) by {
                        assert(m0.all_ranges()[i2] == m0.vm_areas@[i2].vpn_range);
                        assert(m0.vm_ranges()[i as int] == m0.vm_areas@[i as int].vpn_range);
                        assert(m0.all_ranges()[i as int] == m0.vm_ranges()[i as int]);
                    };
                    assert(!rg.spec_contains(v));
                    assert(child.pt()[v] == child_it.pt()[v]) by {
                        assert(child_tc.pt()[v] == child_it.pt()[v]);
                    };
                    assert(a_it.count(q) == 1 && a_it.manages(q) && a_it.page(q) == a0.page(
                        m0.pt()[v].ppn,
                    ));
                    assert(a_it.has_ref(q));
                    assert(a_tc.count(q) == 1 && a_tc.page(q) == a_it.page(q));
                    assert(a.count(q) == a_tc.count(q));
                    assert(a.page(q) == a_tc.page(q));
                    assert(a.manages(q));
                }
            };
            // the copy touched no frame that was live at entry
            assert forall|p: PhysPageNum|
                a_it.has_ref(p) implies #[trigger] a.count(p) == a_it.count(p) by {
                assert(a_tc.count(p) == a_it.count(p));
                assert(a.count(p) == a_tc.count(p));
            };
            assert forall|p: PhysPageNum| #[trigger] a.count(p) >= a_it.count(p) by {
                assert(a_tc.count(p) >= a_it.count(p));
                assert(a.count(p) == a_tc.count(p));
            };
            assert forall|p: PhysPageNum|
                a_it.manages(p) && a_it.has_ref(p) implies #[trigger] a.page(p) == a_it.page(
                p,
            ) by {
                assert(a_tc.page(p) == a_it.page(p));
                assert(a.page(p) == a_tc.page(p));
            };
            // the fork's running facts survive the eager copy
            assert(fork_mid(m0, a0, *user_space, child.page_table, *a, shared)) by {
                assert forall|p: PhysPageNum| #[trigger] a.count(p) >= a0.count(p) by {
                    assert(a.count(p) == a_tc.count(p));
                    assert(a_tc.count(p) >= a_it.count(p));
                    assert(a_it.count(p) >= a0.count(p));
                };
                assert forall|v: VirtPageNum| #[trigger] shared.contains(v) implies a.count(
                    m0.pt()[v].ppn,
                ) == a0.count(m0.pt()[v].ppn) + 1 && child.page_table.view().dom().contains(v)
                    && child.page_table.view()[v] == (PageTableEntry {
                    ppn: m0.pt()[v].ppn,
                    flags: PTEFlags {
                        v: true,
                        r: m0.pt()[v].flags.r,
                        w: false,
                        x: m0.pt()[v].flags.x,
                        u: m0.pt()[v].flags.u,
                        cow: true,
                    },
                }) by {
                    assert(!rg.spec_contains(v)) by {
                        if rg.spec_contains(v) {
                            assert(m0.in_trap_area(v)) by {
                                assert(0 <= i < m0.vm_areas@.len() && (#[trigger] m0.vm_areas@[
                                    i as int
                                ]).vpn_range.start.0 == TRAP_CONTEXT / PAGE_SIZE
                                    && m0.vm_areas@[i as int].vpn_range.spec_contains(v));
                            };
                        }
                    };
                    assert(m0.owned_vpn(v));
                    lemma_owned_count(m0, a0, v);
                    assert(a_it.count(m0.pt()[v].ppn) == a0.count(m0.pt()[v].ppn) + 1);
                    assert(a_tc.count(m0.pt()[v].ppn) == a_it.count(m0.pt()[v].ppn));
                    assert(a.count(m0.pt()[v].ppn) == a_tc.count(m0.pt()[v].ppn));
                    assert(child_it.pt().dom().contains(v));
                    assert(child.pt()[v] == child_it.pt()[v]);
                };
                assert forall|p: PhysPageNum|
                    a0.has_ref(p) && (forall|v: VirtPageNum|
                        #[trigger] shared.contains(v) ==> m0.pt()[v].ppn != p)
                    implies #[trigger] a.count(p) == a0.count(p) by {
                    assert(a_it.count(p) == a0.count(p));
                    assert(a_tc.count(p) == a_it.count(p)) by {
                        assert(a_it.has_ref(p)) by {
                            assert(a_it.count(p) >= a0.count(p));
                        };
                    };
                    assert(a.count(p) == a_tc.count(p));
                };
                assert forall|j: int|
                    0 <= j < child.page_table.node_ppns().len() implies !a0.has_ref(
                    #[trigger] child.page_table.node_ppns()[j],
                ) && a.count(child.page_table.node_ppns()[j]) == 1 && a.manages(
                    child.page_table.node_ppns()[j],
                ) by {
                    let q = child.page_table.node_ppns()[j];
                    if j < child_it.page_table.node_ppns().len() {
                        assert(q == child_it.page_table.node_ppns()[j]);
                        assert(!a0.has_ref(q) && a_it.count(q) == 1 && a_it.manages(q));
                        assert(a_tc.count(q) == a_it.count(q));
                        assert(a.count(q) == a_tc.count(q));
                    } else {
                        assert(!a_it.has_ref(q) && a_tc.count(q) == 1 && a_tc.manages(q));
                        assert(!a0.has_ref(q)) by {
                            assert(a_it.count(q) >= a0.count(q));
                        };
                        assert(a.count(q) == a_tc.count(q));
                    }
                };
            };
        }
    }

    /// Build a child address space sharing this one copy-on-write.
    ///
    /// For every page of the contiguous regions except the trap-context
    /// region: the frame's reference count is incremented, the write bit
    /// is stripped and the copy-on-write mark set on both the parent's
    /// and the child's entry for the page, and the child's region records
    /// one more owning handle to the same frame. This covers the
    /// contiguous regions and the resident pages of the mmap regions and
    /// the heap alike; the regions' bounds, permissions and boundary
    /// markers are reproduced. The trap-context region is the single
    /// exception: it is copied byte-for-byte into freshly allocated
    /// frames at once, because both sides resume through it without a
    /// mediating fault. The trampoline mapping is reproduced as is.
    #[verifier::rlimit(100)]
    #[verifier::spinoff_prover]
    pub fn from_copy_on_write(user_space: &mut MemorySet, a: &mut StackFrameAllocator) -> (r: MemorySet)
        requires
            old(user_space).wf(),
            old(user_space).counts_held(*old(a)),
            old(a).wf(),
            forall|i: int|
                0 <= i < old(user_space).vm_areas@.len() ==> (#[trigger] old(user_space).vm_areas@[i]).map_type is Framed,
            !old(user_space).owned_vpn(VirtPageNum(TRAMPOLINE / PAGE_SIZE)),
            forall|v: VirtPageNum|
                old(user_space).owned_vpn(v) ==> old(a).count(
                    (#[trigger] old(user_space).pt()[v]).ppn,
                ) < usize::MAX - 1,
            old(a).free_frames() >= 3 * old(user_space).total_pages() + 3,
        ensures
            fork_mid(
                *old(user_space),
                *old(a),
                *final(user_space),
                r.page_table,
                *final(a),
                Set::new(
                    |v: VirtPageNum|
                        old(user_space).owned_vpn(v) && !old(user_space).in_trap_area(v),
                ),
            ),
            final(user_space).wf(),
            final(user_space).counts_held(*final(a)),
            r.wf(),
            r.counts_held(*final(a)),
            // the child mirrors the parent's regions and boundaries
            r.vm_areas@.len() == old(user_space).vm_areas@.len(),
            forall|i: int|
                0 <= i < r.vm_areas@.len() ==> (#[trigger] r.vm_areas@[i]).vpn_range == old(user_space).vm_areas@[i].vpn_range && r.vm_areas@[i].map_type == old(user_space).vm_areas@[i].map_type && r.vm_areas@[i].map_perm == old(user_space).vm_areas@[i].map_perm,
            r.mmap_areas@.len() == old(user_space).mmap_areas@.len(),
            forall|j: int|
                0 <= j < r.mmap_areas@.len() ==> (#[trigger] r.mmap_areas@[j]).vpn_range == old(user_space).mmap_areas@[j].vpn_range && r.mmap_areas@[j].map_perm == old(user_space).mmap_areas@[j].map_perm && r.mmap_areas@[j].vpn_table@ == old(user_space).mmap_areas@[j].vpn_table@,
            r.heap_areas.vpn_range == old(user_space).heap_areas.vpn_range,
            r.heap_areas.vpn_table@ == old(user_space).heap_areas.vpn_table@,
            r.brk == old(user_space).brk && r.brk_start == old(user_space).brk_start,
            // the trap-context region is copied, not shared: each child
            // page sits on a fresh, solely owned frame holding the same
            // bytes as the parent's page
            forall|i: int, v: VirtPageNum|
                0 <= i < old(user_space).vm_areas@.len() && (#[trigger] old(user_space).vm_areas@[i]).vpn_range.start.0 == TRAP_CONTEXT / PAGE_SIZE && old(user_space).vm_areas@[i].vpn_range.spec_contains(v) ==> #[trigger] r.pt().dom().contains(v)
                    && !old(a).has_ref(r.pt()[v].ppn) && final(a).count(r.pt()[v].ppn) == 1
                    && final(a).page(r.pt()[v].ppn) == old(a).page(
                    old(user_space).pt()[v].ppn,
                ),
            // the child maps no page the parent did not map
            forall|v: VirtPageNum|
                #[trigger] r.pt().dom().contains(v) ==> old(user_space).pt().dom().contains(v),
            // the trampoline is reproduced
            old(user_space).pt().dom().contains(VirtPageNum(TRAMPOLINE / PAGE_SIZE))
                ==> r.pt().dom().contains(VirtPageNum(TRAMPOLINE / PAGE_SIZE)) && r.pt()[VirtPageNum(
                TRAMPOLINE / PAGE_SIZE,
            )].ppn == old(user_space).pt()[VirtPageNum(TRAMPOLINE / PAGE_SIZE)].ppn,
            final(a).free_frames() >= old(a).free_frames() - 3 * old(user_space).total_pages() - 3,
    {
        let ghost m0 = *user_space;
        let ghost a0 = *a;
        proof {
            lemma_vm_pages_from_nonneg(m0, 0);
            lemma_mmap_pages_from_nonneg(m0, 0);
        }
        let mut child = MemorySet::new_bare(a);
        let tramp_vpn = VirtAddr(TRAMPOLINE).floor();
        let ghost a1 = *a;
        let ghost cpt1 = child.page_table;
        // reproduce the trampoline mapping, when the parent has one
        match user_space.page_table.translate(tramp_vpn) {
            Some(pte) => {
                child.page_table.map(tramp_vpn, pte.ppn(), pte.flags(), a);
                proof {
                    assert forall|j: int|
                        0 <= j < child.page_table.node_ppns().len() implies !a0.has_ref(
                        #[trigger] child.page_table.node_ppns()[j],
                    ) && a.count(child.page_table.node_ppns()[j]) == 1 && a.manages(
                        child.page_table.node_ppns()[j],
                    ) by {
                        if j < cpt1.node_ppns().len() {
                            assert(a1.count(cpt1.node_ppns()[j]) == 1);
                        } else {
                            assert(!a1.has_ref(child.page_table.node_ppns()[j]));
                            assert(a1.count(child.page_table.node_ppns()[j]) >= a0.count(
                                child.page_table.node_ppns()[j],
                            ));
                        }
                    };
                }
            },
            None => {},
        }
        let ghost mut shared = Set::<VirtPageNum>::empty();
        proof {
            assert(fork_mid(m0, a0, *user_space, child.page_table, *a, shared)) by {
                assert(forall|p: PhysPageNum| #[trigger] a.count(p) >= a0.count(p));
                assert forall|p: PhysPageNum|
                    a0.has_ref(p) && (forall|v: VirtPageNum|
                        #[trigger] shared.contains(v) ==> m0.pt()[v].ppn != p) implies #[trigger] a.count(
                    p,
                ) == a0.count(p) by {};
            };
        }
        // contiguous regions: the trap-context region is copied eagerly,
        // every other one is shared copy-on-write
        let nv = user_space.vm_areas.len();
        let mut i: usize = 0;
        while i < nv
            invariant
                i <= nv,
                nv == m0.vm_areas@.len(),
                m0 == *old(user_space),
                a0 == *old(a),
                m0.wf(),
                m0.counts_held(a0),
                a0.wf(),
                forall|i2: int|
                    0 <= i2 < m0.vm_areas@.len() ==> (#[trigger] m0.vm_areas@[i2]).map_type is Framed,
                !m0.owned_vpn(VirtPageNum(TRAMPOLINE / PAGE_SIZE)),
                forall|v: VirtPageNum|
                    m0.owned_vpn(v) ==> a0.count((#[trigger] m0.pt()[v]).ppn) < usize::MAX - 1,
                fork_mid(m0, a0, *user_space, child.page_table, *a, shared),
                forall|v: VirtPageNum|
                    #[trigger] shared.contains(v) <==> exists|i2: int|
                        0 <= i2 < i && (#[trigger] m0.vm_areas@[i2]).vpn_range.start.0
                            != TRAP_CONTEXT / PAGE_SIZE && m0.vm_areas@[i2].vpn_range.spec_contains(
                            v,
                        ),
                child.wf(),
                child.counts_held(*a),
                child.vm_areas@.len() == i,
                forall|i2: int|
                    0 <= i2 < i ==> (#[trigger] child.vm_areas@[i2]).vpn_range
                        == m0.vm_areas@[i2].vpn_range && child.vm_areas@[i2].map_type
                        == m0.vm_areas@[i2].map_type && child.vm_areas@[i2].map_perm
                        == m0.vm_areas@[i2].map_perm,
                child.mmap_areas@.len() == 0,
                child.heap_range() == (VPNRange { start: VirtPageNum(0), end: VirtPageNum(0) }),
                child.heap_areas.vpn_table@.len() == 0,
                child.brk == 0 && child.brk_start == 0,
                forall|i2: int, v: VirtPageNum|
                    0 <= i2 < i && (#[trigger] m0.vm_areas@[i2]).vpn_range.start.0 == TRAP_CONTEXT
                        / PAGE_SIZE && m0.vm_areas@[i2].vpn_range.spec_contains(v)
                        ==> #[trigger] child.pt().dom().contains(v) && !a0.has_ref(
                        child.pt()[v].ppn,
                    ) && a.count(child.pt()[v].ppn) == 1 && a.manages(child.pt()[v].ppn)
                        && a.page(child.pt()[v].ppn) == a0.page(m0.pt()[v].ppn),
                m0.pt().dom().contains(VirtPageNum(TRAMPOLINE / PAGE_SIZE))
                    ==> child.pt().dom().contains(VirtPageNum(TRAMPOLINE / PAGE_SIZE))
                    && child.pt()[VirtPageNum(TRAMPOLINE / PAGE_SIZE)].ppn == m0.pt()[VirtPageNum(
                    TRAMPOLINE / PAGE_SIZE,
                )].ppn,
                forall|v: VirtPageNum|
                    #[trigger] child.pt().dom().contains(v) ==> m0.pt().dom().contains(v),
                a.free_frames() >= a0.free_frames() - 3 - 3 * (m0.vm_pages_from(0)
                    - m0.vm_pages_from(i as int)),
                a0.free_frames() >= 3 * m0.total_pages() + 3,
            decreases nv - i,
        {
            let ghost child_arm = child;
            let ghost shared_arm = shared;
            let rg = user_space.vm_areas[i].vpn_range;
            let start = rg.get_start().0;
            let len = rg.len();
            let is_trap = start == TRAP_CONTEXT / PAGE_SIZE;
            proof {
                assert(m0.vm_areas@[i as int].vpn_range == rg);
                assert(m0.vm_pages_from(i as int) == rg.spec_len() + m0.vm_pages_from(
                    i as int + 1,
                ));
                lemma_vm_pages_from_nonneg(m0, i as int + 1);
                lemma_mmap_pages_from_nonneg(m0, 0);
                assert(m0.total_pages() == m0.vm_pages_from(0) + m0.mmap_pages_from(0)
                    + m0.heap_areas.vpn_table@.len());
                assert(a.free_frames() >= 3 * rg.spec_len());
            }
            if is_trap {
                MemorySet::fork_copy_trap_area(
                    user_space,
                    &mut child,
                    i,
                    a,
                    Ghost(m0),
                    Ghost(a0),
                    Ghost(shared),
                );
                proof {
                    assert forall|v: VirtPageNum| #[trigger] shared.contains(v) implies exists|
                        i2: int,
                    |
                        0 <= i2 < i + 1 && (#[trigger] m0.vm_areas@[i2]).vpn_range.start.0
                            != TRAP_CONTEXT / PAGE_SIZE && m0.vm_areas@[i2].vpn_range.spec_contains(
                            v,
                        ) by {
                        let i2 = choose|i2: int|
                            0 <= i2 < i && (#[trigger] m0.vm_areas@[i2]).vpn_range.start.0
                                != TRAP_CONTEXT / PAGE_SIZE
                                && m0.vm_areas@[i2].vpn_range.spec_contains(v);
                        assert(0 <= i2 < i + 1 && (#[trigger] m0.vm_areas@[i2]).vpn_range.start.0
                            != TRAP_CONTEXT / PAGE_SIZE && m0.vm_areas@[i2].vpn_range.spec_contains(
                            v,
                        ));
                    };
                    assert forall|v: VirtPageNum|
                        (exists|i2: int|
                            0 <= i2 < i + 1 && (#[trigger] m0.vm_areas@[i2]).vpn_range.start.0
                                != TRAP_CONTEXT / PAGE_SIZE
                                && m0.vm_areas@[i2].vpn_range.spec_contains(v))
                        implies #[trigger] shared.contains(v) by {
                        let i2 = choose|i2: int|
                            0 <= i2 < i + 1 && (#[trigger] m0.vm_areas@[i2]).vpn_range.start.0
                                != TRAP_CONTEXT / PAGE_SIZE
                                && m0.vm_areas@[i2].vpn_range.spec_contains(v);
                        assert(i2 != i as int);
                        assert(0 <= i2 < i && (#[trigger] m0.vm_areas@[i2]).vpn_range.start.0
                            != TRAP_CONTEXT / PAGE_SIZE && m0.vm_areas@[i2].vpn_range.spec_contains(
                            v,
                        ));
                    };
                }
            } else {
                user_space.fork_share_area(
                    &mut child,
                    i,
                    a,
                    Ghost(m0),
                    Ghost(a0),
                    Ghost(shared),
                );
                proof {
                    shared = shared.union(range_set(rg.start.0 as int, rg.spec_len()));
                    assert forall|v: VirtPageNum| #[trigger] shared.contains(v) implies exists|
                        i2: int,
                    |
                        0 <= i2 < i + 1 && (#[trigger] m0.vm_areas@[i2]).vpn_range.start.0
                            != TRAP_CONTEXT / PAGE_SIZE && m0.vm_areas@[i2].vpn_range.spec_contains(
                            v,
                        ) by {
                        if shared_arm.contains(v) {
                            let i2 = choose|i2: int|
                                0 <= i2 < i && (#[trigger] m0.vm_areas@[i2]).vpn_range.start.0
                                    != TRAP_CONTEXT / PAGE_SIZE
                                    && m0.vm_areas@[i2].vpn_range.spec_contains(v);
                            assert(0 <= i2 < i + 1 && (#[trigger] m0.vm_areas@[i2]).vpn_range.start.0
                                != TRAP_CONTEXT / PAGE_SIZE
                                && m0.vm_areas@[i2].vpn_range.spec_contains(v));
                        } else {
                            assert(range_set(rg.start.0 as int, rg.spec_len()).contains(v));
                            assert(0 <= (i as int) < i + 1 && (#[trigger] m0.vm_areas@[
                                i as int
                            ]).vpn_range.start.0 != TRAP_CONTEXT / PAGE_SIZE && m0.vm_areas@[
                                i as int
                            ].vpn_range.spec_contains(v));
                        }
                    };
                    assert forall|v: VirtPageNum|
                        (exists|i2: int|
                            0 <= i2 < i + 1 && (#[trigger] m0.vm_areas@[i2]).vpn_range.start.0
                                != TRAP_CONTEXT / PAGE_SIZE
                                && m0.vm_areas@[i2].vpn_range.spec_contains(v))
                        implies #[trigger] shared.contains(v) by {
                        let i2 = choose|i2: int|
                            0 <= i2 < i + 1 && (#[trigger] m0.vm_areas@[i2]).vpn_range.start.0
                                != TRAP_CONTEXT / PAGE_SIZE
                                && m0.vm_areas@[i2].vpn_range.spec_contains(v);
                        if i2 < i as int {
                            assert(shared_arm.contains(v));
                        } else {
                            assert(range_set(rg.start.0 as int, rg.spec_len()).contains(v));
                        }
                    };
                }
            }
            proof {
                // the child still maps only pages the parent maps: the
                // region's own pages are owned, hence mapped, in the parent
                assert forall|v: VirtPageNum| #[trigger] child.pt().dom().contains(
                    v,
                ) implies m0.pt().dom().contains(v) by {
                    if !rg.spec_contains(v) {
                        assert(child_arm.pt().dom().contains(v));
                    } else {
                        assert(m0.owned_vpn(v)) by {
                            assert(0 <= i < m0.vm_areas@.len() && (#[trigger] m0.vm_areas@[
                                i as int
                            ]).map_type is Framed && m0.vm_areas@[i as int].vpn_range.spec_contains(
                                v,
                            ));
                        };
                        lemma_owned_mapped(m0, v);
                    }
                };
            }
            i += 1;
        }
        // sparse regions: every declared mmap region is reproduced with
        // its bounds and permission, and its resident pages are shared
        let nm = user_space.mmap_areas.len();
        proof {
            // classify the child's owned pages before the sparse rounds
            assert forall|v2: VirtPageNum| #[trigger] child.owned_vpn(v2) implies child.pt().dom().contains(
                v2,
            ) && ((shared.contains(v2) && child.pt()[v2].ppn == m0.pt()[v2].ppn && m0.owned_vpn(
                v2,
            )) || !a0.has_ref(child.pt()[v2].ppn)) by {
                lemma_child_owned_cases(m0, a0, child, *a, shared, v2, nv as int);
                lemma_owned_mapped(child, v2);
                if shared.contains(v2) {
                    assert(m0.owned_vpn(v2));
                    assert(child.pt()[v2].ppn == m0.pt()[v2].ppn);
                }
            };
        }
        let mut j: usize = 0;
        while j < nm
            invariant
                j <= nm,
                nm == m0.mmap_areas@.len(),
                m0 == *old(user_space),
                a0 == *old(a),
                m0.wf(),
                m0.counts_held(a0),
                a0.wf(),
                forall|i2: int|
                    0 <= i2 < m0.vm_areas@.len() ==> (#[trigger] m0.vm_areas@[i2]).map_type is Framed,
                !m0.owned_vpn(VirtPageNum(TRAMPOLINE / PAGE_SIZE)),
                forall|v: VirtPageNum|
                    m0.owned_vpn(v) ==> a0.count((#[trigger] m0.pt()[v]).ppn) < usize::MAX - 1,
                fork_mid(m0, a0, *user_space, child.page_table, *a, shared),
                forall|v: VirtPageNum|
                    #[trigger] shared.contains(v) <==> (exists|i2: int|
                        0 <= i2 < m0.vm_areas@.len() && (#[trigger] m0.vm_areas@[i2]).vpn_range.start.0
                            != TRAP_CONTEXT / PAGE_SIZE && m0.vm_areas@[i2].vpn_range.spec_contains(
                            v,
                        )) || (exists|j2: int|
                        0 <= j2 < j && (#[trigger] m0.mmap_areas@[j2]).resident(v)),
                child.wf(),
                child.counts_held(*a),
                child.vm_areas@.len() == m0.vm_areas@.len(),
                forall|i2: int|
                    0 <= i2 < child.vm_areas@.len() ==> (#[trigger] child.vm_areas@[i2]).vpn_range
                        == m0.vm_areas@[i2].vpn_range && child.vm_areas@[i2].map_type
                        == m0.vm_areas@[i2].map_type && child.vm_areas@[i2].map_perm
                        == m0.vm_areas@[i2].map_perm,
                child.mmap_areas@.len() == j,
                forall|j2: int|
                    0 <= j2 < j ==> (#[trigger] child.mmap_areas@[j2]).vpn_range
                        == m0.mmap_areas@[j2].vpn_range && child.mmap_areas@[j2].map_perm
                        == m0.mmap_areas@[j2].map_perm && child.mmap_areas@[j2].vpn_table@
                        == m0.mmap_areas@[j2].vpn_table@,
                child.heap_range() == (VPNRange { start: VirtPageNum(0), end: VirtPageNum(0) }),
                child.heap_areas.vpn_table@.len() == 0,
                child.brk == 0 && child.brk_start == 0,
                forall|i2: int, v: VirtPageNum|
                    0 <= i2 < m0.vm_areas@.len() && (#[trigger] m0.vm_areas@[i2]).vpn_range.start.0
                        == TRAP_CONTEXT / PAGE_SIZE && m0.vm_areas@[i2].vpn_range.spec_contains(v)
                        ==> #[trigger] child.pt().dom().contains(v) && !a0.has_ref(
                        child.pt()[v].ppn,
                    ) && a.count(child.pt()[v].ppn) == 1 && a.manages(child.pt()[v].ppn)
                        && a.page(child.pt()[v].ppn) == a0.page(m0.pt()[v].ppn),
                m0.pt().dom().contains(VirtPageNum(TRAMPOLINE / PAGE_SIZE))
                    ==> child.pt().dom().contains(VirtPageNum(TRAMPOLINE / PAGE_SIZE))
                    && child.pt()[VirtPageNum(TRAMPOLINE / PAGE_SIZE)].ppn == m0.pt()[VirtPageNum(
                    TRAMPOLINE / PAGE_SIZE,
                )].ppn,
                forall|v: VirtPageNum|
                    #[trigger] child.pt().dom().contains(v) ==> m0.pt().dom().contains(v),
                forall|v2: VirtPageNum|
                    #[trigger] child.owned_vpn(v2) ==> child.pt().dom().contains(v2) && (
                    (shared.contains(v2) && child.pt()[v2].ppn == m0.pt()[v2].ppn && m0.owned_vpn(
                        v2,
                    )) || !a0.has_ref(child.pt()[v2].ppn)),
                a.free_frames() >= a0.free_frames() - 3 - 3 * m0.vm_pages_from(0) - 2 * (
                m0.mmap_pages_from(0) - m0.mmap_pages_from(j as int)),
                a0.free_frames() >= 3 * m0.total_pages() + 3,
            decreases nm - j,
        {
            let ghost shared_arm = shared;
            let ghost child_arm2 = child;
            let ghost a_arm2 = *a;
            let ghost tblg = m0.mmap_areas@[j as int].vpn_table@;
            let ghost nvm = m0.vm_areas@.len() as int;
            proof {
                assert(m0.mmap_pages_from(j as int) == tblg.len() + m0.mmap_pages_from(
                    j as int + 1,
                ));
                lemma_mmap_pages_from_nonneg(m0, j as int + 1);
                lemma_mmap_pages_from_nonneg(m0, 0);
                lemma_vm_pages_from_nonneg(m0, 0);
                assert(m0.total_pages() == m0.vm_pages_from(0) + m0.mmap_pages_from(0)
                    + m0.heap_areas.vpn_table@.len());
                assert(a.free_frames() >= 2 * tblg.len());
                assert(m0.all_ranges()[nvm + j as int] == m0.mmap_areas@[j as int].vpn_range);
                // no page of this chunk is shared yet: its range lies apart
                // from every contiguous region and every earlier chunk
                assert forall|k: int|
                    0 <= k < tblg.len() implies !shared.contains(#[trigger] tblg[k]) by {
                    let v = tblg[k];
                    assert(m0.mmap_areas@[j as int].mapped_in(m0.page_table));
                    assert(m0.mmap_areas@[j as int].vpn_range.spec_contains(v));
                    if shared.contains(v) {
                        if exists|i2: int|
                            0 <= i2 < m0.vm_areas@.len() && (#[trigger] m0.vm_areas@[i2]).vpn_range.start.0
                                != TRAP_CONTEXT / PAGE_SIZE
                                && m0.vm_areas@[i2].vpn_range.spec_contains(v) {
                            let i2 = choose|i2: int|
                                0 <= i2 < m0.vm_areas@.len() && (#[trigger] m0.vm_areas@[i2]).vpn_range.start.0
                                    != TRAP_CONTEXT / PAGE_SIZE
                                    && m0.vm_areas@[i2].vpn_range.spec_contains(v);
                            assert(m0.all_ranges()[i2] == m0.vm_areas@[i2].vpn_range);
                            assert(ranges_disjoint(
                                m0.all_ranges()[i2],
                                m0.all_ranges()[nvm + j as int],
                            ));
                        } else {
                            let j2 = choose|j2: int|
                                0 <= j2 < j && (#[trigger] m0.mmap_areas@[j2]).resident(v);
                            let kk = choose|kk: int|
                                0 <= kk < m0.mmap_areas@[j2].vpn_table@.len()
                                    && m0.mmap_areas@[j2].vpn_table@[kk] == v;
                            assert(m0.mmap_areas@[j2].mapped_in(m0.page_table));
                            assert(m0.mmap_areas@[j2].vpn_range.spec_contains(v));
                            assert(m0.all_ranges()[nvm + j2] == m0.mmap_areas@[j2].vpn_range);
                            assert(ranges_disjoint(
                                m0.all_ranges()[nvm + j2],
                                m0.all_ranges()[nvm + j as int],
                            ));
                        }
                    }
                };
            }
            user_space.fork_share_chunk(&mut child, j, a, Ghost(m0), Ghost(a0), Ghost(shared));
            proof {
                shared = shared.union(listed_set(tblg, tblg.len() as int));
                // the characterization: one more chunk's residents joined
                assert forall|v: VirtPageNum| #[trigger] shared.contains(v) implies (exists|
                    i2: int,
                |
                    0 <= i2 < m0.vm_areas@.len() && (#[trigger] m0.vm_areas@[i2]).vpn_range.start.0
                        != TRAP_CONTEXT / PAGE_SIZE && m0.vm_areas@[i2].vpn_range.spec_contains(v))
                    || (exists|j2: int|
                    0 <= j2 < j + 1 && (#[trigger] m0.mmap_areas@[j2]).resident(v)) by {
                    if !shared_arm.contains(v) {
                        let k = choose|k: int| 0 <= k < tblg.len() && tblg[k] == v;
                        assert(m0.mmap_areas@[j as int].resident(v));
                        assert(0 <= j < j + 1 && (#[trigger] m0.mmap_areas@[j as int]).resident(v));
                    } else if exists|j2: int|
                        0 <= j2 < j && (#[trigger] m0.mmap_areas@[j2]).resident(v) {
                        let j2 = choose|j2: int|
                            0 <= j2 < j && (#[trigger] m0.mmap_areas@[j2]).resident(v);
                        assert(0 <= j2 < j + 1 && (#[trigger] m0.mmap_areas@[j2]).resident(v));
                    }
                };
                assert forall|v: VirtPageNum|
                    ((exists|i2: int|
                        0 <= i2 < m0.vm_areas@.len() && (#[trigger] m0.vm_areas@[i2]).vpn_range.start.0
                            != TRAP_CONTEXT / PAGE_SIZE && m0.vm_areas@[i2].vpn_range.spec_contains(
                            v,
                        )) || (exists|j2: int|
                        0 <= j2 < j + 1 && (#[trigger] m0.mmap_areas@[j2]).resident(
                            v,
                        ))) implies #[trigger] shared.contains(v) by {
                    if shared_arm.contains(v) {
                    } else if exists|j2: int|
                        0 <= j2 < j + 1 && (#[trigger] m0.mmap_areas@[j2]).resident(v) {
                        let j2 = choose|j2: int|
                            0 <= j2 < j + 1 && (#[trigger] m0.mmap_areas@[j2]).resident(v);
                        if j2 == j as int {
                            let kk = choose|kk: int|
                                0 <= kk < tblg.len() && m0.mmap_areas@[j as int].vpn_table@[kk]
                                    == v;
                            assert(listed_set(tblg, tblg.len() as int).contains(v));
                        } else {
                            assert(shared_arm.contains(v)) by {
                                assert(0 <= j2 < j && (#[trigger] m0.mmap_areas@[j2]).resident(v));
                            };
                        }
                    }
                };
                // the trap-context pages, the trampoline and the mapped-set
                // bound survive the chunk's share: none of its pages lies in
                // another region
                assert forall|i2: int, v: VirtPageNum|
                    0 <= i2 < m0.vm_areas@.len() && (#[trigger] m0.vm_areas@[i2]).vpn_range.start.0
                        == TRAP_CONTEXT / PAGE_SIZE && m0.vm_areas@[i2].vpn_range.spec_contains(
                        v,
                    ) implies #[trigger] child.pt().dom().contains(v) && !a0.has_ref(
                    child.pt()[v].ppn,
                ) && a.count(child.pt()[v].ppn) == 1 && a.manages(child.pt()[v].ppn) && a.page(
                    child.pt()[v].ppn,
                ) == a0.page(m0.pt()[v].ppn) by {
                    assert(!listed_set(tblg, tblg.len() as int).contains(v)) by {
                        if listed_set(tblg, tblg.len() as int).contains(v) {
                            let k = choose|k: int| 0 <= k < tblg.len() && tblg[k] == v;
                            assert(m0.mmap_areas@[j as int].mapped_in(m0.page_table));
                            assert(m0.mmap_areas@[j as int].vpn_range.spec_contains(v));
                            assert(m0.all_ranges()[i2] == m0.vm_areas@[i2].vpn_range);
                            assert(ranges_disjoint(
                                m0.all_ranges()[i2],
                                m0.all_ranges()[nvm + j as int],
                            ));
                        }
                    };
                    assert(child.pt().dom().contains(v) && child.pt()[v] == child_arm2.pt()[v]);
                    let q = child_arm2.pt()[v].ppn;
                    assert(a_arm2.count(q) == 1 && a_arm2.manages(q));
                    assert(a.count(q) == a_arm2.count(q)) by {
                        assert(a_arm2.has_ref(q));
                    };
                    assert(a.page(q) == a_arm2.page(q));
                    assert(a.manages(q));
                };
                assert(m0.pt().dom().contains(VirtPageNum(TRAMPOLINE / PAGE_SIZE))
                    ==> child.pt().dom().contains(VirtPageNum(TRAMPOLINE / PAGE_SIZE))
                    && child.pt()[VirtPageNum(TRAMPOLINE / PAGE_SIZE)].ppn == m0.pt()[VirtPageNum(
                    TRAMPOLINE / PAGE_SIZE,
                )].ppn) by {
                    assert(!listed_set(tblg, tblg.len() as int).contains(
                        VirtPageNum(TRAMPOLINE / PAGE_SIZE),
                    )) by {
                        if listed_set(tblg, tblg.len() as int).contains(
                            VirtPageNum(TRAMPOLINE / PAGE_SIZE),
                        ) {
                            let k = choose|k: int|
                                0 <= k < tblg.len() && tblg[k] == VirtPageNum(
                                    TRAMPOLINE / PAGE_SIZE,
                                );
                            assert(m0.owned_vpn(VirtPageNum(TRAMPOLINE / PAGE_SIZE))) by {
                                assert(m0.mmap_areas@[j as int].resident(
                                    VirtPageNum(TRAMPOLINE / PAGE_SIZE),
                                ));
                                assert(0 <= j < m0.mmap_areas@.len() && (#[trigger] m0.mmap_areas@[
                                    j as int
                                ]).resident(VirtPageNum(TRAMPOLINE / PAGE_SIZE)));
                            };
                        }
                    };
                };
                assert forall|v: VirtPageNum| #[trigger] child.pt().dom().contains(
                    v,
                ) implies m0.pt().dom().contains(v) by {
                    if !listed_set(tblg, tblg.len() as int).contains(v) {
                        assert(child_arm2.pt().dom().contains(v));
                    } else {
                        let k = choose|k: int| 0 <= k < tblg.len() && tblg[k] == v;
                        assert(m0.owned_vpn(v)) by {
                            assert(m0.mmap_areas@[j as int].resident(v));
                            assert(0 <= j < m0.mmap_areas@.len() && (#[trigger] m0.mmap_areas@[
                                j as int
                            ]).resident(v));
                        };
                        lemma_owned_mapped(m0, v);
                    }
                };
            }
            j += 1;
        }
        // the heap: same bounds and boundary markers, resident pages shared
        let ghost heap_tblg = m0.heap_areas.vpn_table@;
        let ghost child_hp = child;
        let ghost a_hp = *a;
        let ghost shared_hp = shared;
        let ghost hrg = m0.heap_areas.vpn_range;
        let ghost nvm = m0.vm_areas@.len() as int;
        let heap_tbl = MemorySet::copy_vpn_table(&user_space.heap_areas.vpn_table);
        let mut new_heap = ChunkArea::from_another(&user_space.heap_areas);
        proof {
            assert(user_space.heap_areas == m0.heap_areas);
            assert(heap_tbl@ == heap_tblg);
            assert(m0.heap_areas.mapped_in(m0.page_table));
            assert(m0.all_ranges()[nvm + nm as int] == hrg);
            lemma_vm_pages_from_nonneg(m0, 0);
            lemma_mmap_pages_from_nonneg(m0, 0);
            assert(m0.total_pages() == m0.vm_pages_from(0) + m0.mmap_pages_from(0)
                + m0.heap_areas.vpn_table@.len());
            assert(a.free_frames() >= 2 * heap_tblg.len());
            // each resident heap page is owned, outside the trap-context
            // region, and not yet shared
            assert forall|k: int|
                0 <= k < heap_tblg.len() implies #[trigger] m0.owned_vpn(heap_tblg[k])
                    && !m0.in_trap_area(heap_tblg[k]) && !shared.contains(heap_tblg[k]) by {
                let v = heap_tblg[k];
                assert(m0.owned_vpn(v)) by {
                    assert(m0.heap_areas.resident(v));
                };
                assert(hrg.spec_contains(v));
                assert(!m0.in_trap_area(v)) by {
                    if m0.in_trap_area(v) {
                        let i3 = choose|i3: int|
                            0 <= i3 < m0.vm_areas@.len() && (#[trigger] m0.vm_areas@[i3]).vpn_range.start.0
                                == TRAP_CONTEXT / PAGE_SIZE
                                && m0.vm_areas@[i3].vpn_range.spec_contains(v);
                        assert(m0.all_ranges()[i3] == m0.vm_areas@[i3].vpn_range);
                        assert(ranges_disjoint(m0.all_ranges()[i3], m0.all_ranges()[nvm + nm as int]));
                    }
                };
                assert(!shared.contains(v)) by {
                    if shared.contains(v) {
                        if exists|i2: int|
                            0 <= i2 < m0.vm_areas@.len() && (#[trigger] m0.vm_areas@[i2]).vpn_range.start.0
                                != TRAP_CONTEXT / PAGE_SIZE
                                && m0.vm_areas@[i2].vpn_range.spec_contains(v) {
                            let i2 = choose|i2: int|
                                0 <= i2 < m0.vm_areas@.len() && (#[trigger] m0.vm_areas@[i2]).vpn_range.start.0
                                    != TRAP_CONTEXT / PAGE_SIZE
                                    && m0.vm_areas@[i2].vpn_range.spec_contains(v);
                            assert(m0.all_ranges()[i2] == m0.vm_areas@[i2].vpn_range);
                            assert(ranges_disjoint(
                                m0.all_ranges()[i2],
                                m0.all_ranges()[nvm + nm as int],
                            ));
                        } else {
                            let j2 = choose|j2: int|
                                0 <= j2 < nm && (#[trigger] m0.mmap_areas@[j2]).resident(v);
                            let kk = choose|kk: int|
                                0 <= kk < m0.mmap_areas@[j2].vpn_table@.len()
                                    && m0.mmap_areas@[j2].vpn_table@[kk] == v;
                            assert(m0.mmap_areas@[j2].mapped_in(m0.page_table));
                            assert(m0.mmap_areas@[j2].vpn_range.spec_contains(v));
                            assert(m0.all_ranges()[nvm + j2] == m0.mmap_areas@[j2].vpn_range);
                            assert(ranges_disjoint(
                                m0.all_ranges()[nvm + j2],
                                m0.all_ranges()[nvm + nm as int],
                            ));
                        }
                    }
                };
            };
        }
        let fs2 = user_space.share_listed(
            &mut child.page_table,
            &heap_tbl,
            a,
            Ghost(m0),
            Ghost(a0),
            Ghost(shared),
        );
        new_heap.vpn_table = heap_tbl;
        new_heap.data_frames = fs2;
        proof {
            shared = shared.union(listed_set(heap_tblg, heap_tblg.len() as int));
            assert forall|k: int| 0 <= k < heap_tblg.len() implies #[trigger] shared.contains(
                heap_tblg[k],
            ) by {
                assert(listed_set(heap_tblg, heap_tblg.len() as int).contains(heap_tblg[k]));
            };
            assert(new_heap.mapped_in(child.page_table)) by {
                assert forall|k: int|
                    0 <= k < heap_tblg.len() implies child.page_table.view().dom().contains(
                    #[trigger] new_heap.vpn_table@[k],
                ) && child.page_table.view()[new_heap.vpn_table@[k]].ppn
                    == new_heap.data_frames@[k].ppn by {
                    assert(shared.contains(heap_tblg[k]));
                };
            };
            assert(new_heap.frames_distinct()) by {
                assert forall|k1: int, k2: int|
                    0 <= k1 < k2 < new_heap.data_frames@.len() implies (
                #[trigger] new_heap.data_frames@[k1]).ppn != (
                #[trigger] new_heap.data_frames@[k2]).ppn by {
                    assert(m0.owned_vpn(heap_tblg[k1]) && m0.owned_vpn(heap_tblg[k2])
                        && heap_tblg[k1] != heap_tblg[k2]);
                    assert(new_heap.data_frames@[k1].ppn == m0.pt()[heap_tblg[k1]].ppn);
                    assert(new_heap.data_frames@[k2].ppn == m0.pt()[heap_tblg[k2]].ppn);
                };
            };
            assert(new_heap.counts_held(*a)) by {
                assert forall|k: int|
                    0 <= k < new_heap.data_frames@.len() implies a.count(
                    (#[trigger] new_heap.data_frames@[k]).ppn,
                ) >= 1 && a.manages(new_heap.data_frames@[k].ppn) by {
                    let v = heap_tblg[k];
                    lemma_owned_count(m0, a0, v);
                    assert(shared.contains(v));
                    assert(a.count(m0.pt()[v].ppn) == a0.count(m0.pt()[v].ppn) + 1);
                };
            };
            assert forall|i2: int|
                0 <= i2 < child_hp.all_ranges().len() implies ranges_disjoint(
                #[trigger] child_hp.all_ranges()[i2],
                hrg,
            ) by {
                if i2 < nvm {
                    assert(child_hp.all_ranges()[i2] == child_hp.vm_areas@[i2].vpn_range);
                    assert(m0.all_ranges()[i2] == m0.vm_areas@[i2].vpn_range);
                    assert(ranges_disjoint(m0.all_ranges()[i2], m0.all_ranges()[nvm + nm as int]));
                } else if i2 < nvm + nm as int {
                    assert(child_hp.all_ranges()[i2] == child_hp.mmap_areas@[i2 - nvm].vpn_range);
                    assert(m0.all_ranges()[i2] == m0.mmap_areas@[i2 - nvm].vpn_range);
                    assert(ranges_disjoint(m0.all_ranges()[i2], m0.all_ranges()[nvm + nm as int]));
                } else {
                    assert(child_hp.all_ranges()[i2] == child_hp.heap_range());
                }
            };
            lemma_child_after_share_set(
                m0,
                a0,
                child_hp,
                child,
                a_hp,
                *a,
                shared,
                listed_set(heap_tblg, heap_tblg.len() as int),
                hrg,
            );
            // a mark no region accounts for yet sits on a resident heap page
            assert forall|v: VirtPageNum|
                child.pt().dom().contains(v) && (#[trigger] child.pt()[v]).flags.cow
                    && !child.owned_vpn(v) implies new_heap.resident(v) by {
                if !listed_set(heap_tblg, heap_tblg.len() as int).contains(v) {
                    assert(child.pt()[v] == child_hp.pt()[v]);
                    assert(child_hp.owned_vpn(v));
                    lemma_owned_grows_vm(child_hp, child, v);
                } else {
                    let k = choose|k: int| 0 <= k < heap_tblg.len() && heap_tblg[k] == v;
                    assert(new_heap.vpn_table@[k] == v);
                }
            };
            // no resident heap page's frame doubles as another owned page's
            // frame or a table node of the child
            assert forall|k: int, v2: VirtPageNum|
                0 <= k < new_heap.vpn_table@.len() && child.owned_vpn(v2) implies (
            #[trigger] child.pt()[new_heap.vpn_table@[k]]).ppn != (#[trigger] child.pt()[v2]).ppn by {
                let v = heap_tblg[k];
                assert(shared.contains(v));
                assert(child.pt()[v].ppn == m0.pt()[v].ppn);
                assert(m0.owned_vpn(v));
                lemma_owned_count(m0, a0, v);
                assert(child_hp.owned_vpn(v2));
                assert(!hrg.spec_contains(v2) && child.pt()[v2] == child_hp.pt()[v2]) by {
                    lemma_owned_in_a_range(child_hp, v2, hrg);
                    assert(!listed_set(heap_tblg, heap_tblg.len() as int).contains(v2));
                    lemma_owned_mapped(child_hp, v2);
                };
                assert(v2 != v);
                if shared_hp.contains(v2) && child_hp.pt()[v2].ppn == m0.pt()[v2].ppn
                    && m0.owned_vpn(v2) {
                    assert(m0.pt()[v2].ppn != m0.pt()[v].ppn);
                } else {
                    assert(!a0.has_ref(child_hp.pt()[v2].ppn));
                }
            };
            assert forall|j2: int, k: int|
                0 <= j2 < child.page_table.node_ppns().len() && 0 <= k
                    < new_heap.vpn_table@.len() implies #[trigger] child.page_table.node_ppns()[j2]
                    != (#[trigger] child.pt()[new_heap.vpn_table@[k]]).ppn by {
                let v = heap_tblg[k];
                assert(shared.contains(v));
                assert(child.pt()[v].ppn == m0.pt()[v].ppn);
                assert(m0.owned_vpn(v));
                lemma_owned_count(m0, a0, v);
                assert(!a0.has_ref(child.page_table.node_ppns()[j2]));
            };
            assert(hrg.end.0 <= crate::consts::MAX_VPN);
        }
        let pbrk_start = user_space.brk_start;
        let pbrk = user_space.brk;
        let ghost child_preheap = child;
        child.install_heap(new_heap, pbrk_start, pbrk, a);
        proof {
            assert(child.page_table == child_preheap.page_table);
            assert(child.pt() == child_preheap.pt());
            // the pages shared are exactly the owned pages outside the
            // trap-context region
            let owned_set = Set::new(
                |v: VirtPageNum| m0.owned_vpn(v) && !m0.in_trap_area(v),
            );
            assert forall|v: VirtPageNum| #[trigger] shared.contains(v) implies owned_set.contains(
                v,
            ) by {
                assert(m0.owned_vpn(v) && !m0.in_trap_area(v));
            };
            assert forall|v: VirtPageNum| #[trigger] owned_set.contains(v) implies shared.contains(
                v,
            ) by {
                if exists|i2: int|
                    0 <= i2 < m0.vm_areas@.len() && (#[trigger] m0.vm_areas@[i2]).map_type is Framed
                        && m0.vm_areas@[i2].vpn_range.spec_contains(v) {
                    let i2 = choose|i2: int|
                        0 <= i2 < m0.vm_areas@.len() && (#[trigger] m0.vm_areas@[i2]).map_type is Framed
                            && m0.vm_areas@[i2].vpn_range.spec_contains(v);
                    assert(m0.vm_areas@[i2].vpn_range.start.0 != TRAP_CONTEXT / PAGE_SIZE) by {
                        if m0.vm_areas@[i2].vpn_range.start.0 == TRAP_CONTEXT / PAGE_SIZE {
                            assert(m0.in_trap_area(v)) by {
                                assert(0 <= i2 < m0.vm_areas@.len() && (#[trigger] m0.vm_areas@[i2]).vpn_range.start.0
                                    == TRAP_CONTEXT / PAGE_SIZE
                                    && m0.vm_areas@[i2].vpn_range.spec_contains(v));
                            };
                        }
                    };
                    assert(shared_hp.contains(v)) by {
                        assert(0 <= i2 < m0.vm_areas@.len() && (#[trigger] m0.vm_areas@[i2]).vpn_range.start.0
                            != TRAP_CONTEXT / PAGE_SIZE && m0.vm_areas@[i2].vpn_range.spec_contains(
                            v,
                        ));
                    };
                } else if exists|j2: int|
                    0 <= j2 < m0.mmap_areas@.len() && (#[trigger] m0.mmap_areas@[j2]).resident(v) {
                    assert(shared_hp.contains(v));
                } else {
                    assert(m0.heap_areas.resident(v));
                    let kk = choose|kk: int|
                        0 <= kk < heap_tblg.len() && heap_tblg[kk] == v;
                    assert(listed_set(heap_tblg, heap_tblg.len() as int).contains(v));
                }
            };
            assert(shared =~= owned_set);
            lemma_parent_wf_after_fork(m0, a0, *user_space, child.page_table, *a, shared);
            assert(child.heap_areas.vpn_table@ =~= m0.heap_areas.vpn_table@);
            // the trap-context pages, the trampoline and the mapped-set
            // bound survive the heap's share
            assert forall|i2: int, v: VirtPageNum|
                0 <= i2 < m0.vm_areas@.len() && (#[trigger] m0.vm_areas@[i2]).vpn_range.start.0
                    == TRAP_CONTEXT / PAGE_SIZE && m0.vm_areas@[i2].vpn_range.spec_contains(
                    v,
                ) implies #[trigger] child.pt().dom().contains(v) && !a0.has_ref(
                child.pt()[v].ppn,
            ) && a.count(child.pt()[v].ppn) == 1 && a.page(child.pt()[v].ppn) == a0.page(
                m0.pt()[v].ppn,
            ) by {
                assert(!listed_set(heap_tblg, heap_tblg.len() as int).contains(v)) by {
                    if listed_set(heap_tblg, heap_tblg.len() as int).contains(v) {
                        let k = choose|k: int| 0 <= k < heap_tblg.len() && heap_tblg[k] == v;
                        assert(hrg.spec_contains(v));
                        assert(m0.all_ranges()[i2] == m0.vm_areas@[i2].vpn_range);
                        assert(ranges_disjoint(
                            m0.all_ranges()[i2],
                            m0.all_ranges()[nvm + nm as int],
                        ));
                    }
                };
                assert(child.pt().dom().contains(v) && child.pt()[v] == child_hp.pt()[v]);
                let q = child_hp.pt()[v].ppn;
                assert(a_hp.count(q) == 1 && a_hp.manages(q));
                assert(a.count(q) == a_hp.count(q)) by {
                    assert(a_hp.has_ref(q));
                    assert forall|k: int|
                        0 <= k < heap_tblg.len() implies (#[trigger] m0.pt()[heap_tblg[k]]).ppn
                            != q by {
                        lemma_owned_count(m0, a0, heap_tblg[k]);
                    };
                };
                assert(a.page(q) == a_hp.page(q));
            };
            assert(m0.pt().dom().contains(VirtPageNum(TRAMPOLINE / PAGE_SIZE))
                ==> child.pt().dom().contains(VirtPageNum(TRAMPOLINE / PAGE_SIZE))
                && child.pt()[VirtPageNum(TRAMPOLINE / PAGE_SIZE)].ppn == m0.pt()[VirtPageNum(
                TRAMPOLINE / PAGE_SIZE,
            )].ppn) by {
                assert(!listed_set(heap_tblg, heap_tblg.len() as int).contains(
                    VirtPageNum(TRAMPOLINE / PAGE_SIZE),
                )) by {
                    if listed_set(heap_tblg, heap_tblg.len() as int).contains(
                        VirtPageNum(TRAMPOLINE / PAGE_SIZE),
                    ) {
                        let k = choose|k: int|
                            0 <= k < heap_tblg.len() && heap_tblg[k] == VirtPageNum(
                                TRAMPOLINE / PAGE_SIZE,
                            );
                        assert(m0.owned_vpn(VirtPageNum(TRAMPOLINE / PAGE_SIZE))) by {
                            assert(m0.heap_areas.resident(VirtPageNum(TRAMPOLINE / PAGE_SIZE)));
                        };
                    }
                };
            };
            assert forall|v: VirtPageNum| #[trigger] child.pt().dom().contains(
                v,
            ) implies m0.pt().dom().contains(v) by {
                if !listed_set(heap_tblg, heap_tblg.len() as int).contains(v) {
                    assert(child_hp.pt().dom().contains(v));
                } else {
                    let k = choose|k: int| 0 <= k < heap_tblg.len() && heap_tblg[k] == v;
                    assert(m0.owned_vpn(v)) by {
                        assert(m0.heap_areas.resident(v));
                    };
                    lemma_owned_mapped(m0, v);
                }
            };
        }
        child
    }

    /// Map the trampoline page: the highest virtual page, pointing at the
    /// physical frame holding the shared trap-entry code, readable and
    /// executable. The frame is the kernel's, not owned by any region.
    pub fn map_trampoline(&mut self, strampoline: PhysPageNum, a: &mut StackFrameAllocator)
        requires
            old(self).wf(),
            old(self).counts_held(*old(a)),
            old(a).wf(),
            old(a).free_frames() >= 2,
            // the trampoline page belongs to no declared region
            forall|i: int|
                0 <= i < old(self).all_ranges().len() ==> !(#[trigger] old(self).all_ranges()[i]).spec_contains(VirtPageNum(TRAMPOLINE / PAGE_SIZE)),
        ensures
            final(self).wf(),
            final(self).counts_held(*final(a)),
            final(self).vm_areas == old(self).vm_areas,
            final(self).mmap_areas == old(self).mmap_areas,
            final(self).heap_areas == old(self).heap_areas,
            final(self).brk == old(self).brk && final(self).brk_start == old(self).brk_start,
            final(self).pt() == old(self).pt().insert(
                VirtPageNum(TRAMPOLINE / PAGE_SIZE),
                PageTableEntry {
                    ppn: strampoline,
                    flags: PTEFlags { v: true, r: true, w: false, x: true, u: false, cow: false },
                },
            ),
            final(a).wf(),
            final(a).spec_base() == old(a).spec_base(),
            final(a).spec_end() == old(a).spec_end(),
            final(a).free_frames() >= old(a).free_frames() - 2,
            forall|p: PhysPageNum|
                old(a).has_ref(p) ==> #[trigger] final(a).count(p) == old(a).count(p),
            forall|p: PhysPageNum|
                old(a).manages(p) && old(a).has_ref(p) ==> #[trigger] final(a).page(p) == old(a).page(p),
    {
        let ghost m0 = *self;
        let ghost a0 = *a;
        let tramp_vpn = VirtAddr(TRAMPOLINE).floor();
        let flags = PTEFlags { v: true, r: true, w: false, x: true, u: false, cow: false };
        self.page_table.map(tramp_vpn, strampoline, flags, a);
        proof {
            let tv = VirtPageNum(TRAMPOLINE / PAGE_SIZE);
            assert(tramp_vpn == tv);
            assert(self.pt() == m0.pt().insert(
                tv,
                PageTableEntry { ppn: strampoline, flags },
            ));
            assert forall|i: int|
                0 <= i < self.vm_areas@.len() implies (#[trigger] self.vm_areas@[i]).mapped_in(
                self.page_table,
            ) && self.vm_areas@[i].counts_held(*a) by {
                let ar = m0.vm_areas@[i];
                assert(ar.mapped_in(m0.page_table));
                assert forall|k: int|
                    0 <= k < ar.vpn_range.spec_len() implies self.pt().dom().contains(
                    #[trigger] vpn_at(ar.vpn_range, k),
                ) && self.pt()[vpn_at(ar.vpn_range, k)] == m0.pt()[vpn_at(ar.vpn_range, k)] by {
                    let v = vpn_at(ar.vpn_range, k);
                    assert(v != tv) by {
                        assert(m0.all_ranges()[i] == ar.vpn_range);
                        assert(!ar.vpn_range.spec_contains(tv));
                    };
                };
                if ar.map_type is Framed {
                    assert forall|k: int|
                        0 <= k < ar.data_frames@.len() implies a.count(
                        (#[trigger] ar.data_frames@[k]).ppn,
                    ) >= 1 && a.manages(ar.data_frames@[k].ppn) by {
                        assert(a0.count(ar.data_frames@[k].ppn) >= 1);
                    };
                }
            };
            assert forall|i: int|
                0 <= i < self.mmap_areas@.len() implies (#[trigger] self.mmap_areas@[i]).mapped_in(
                self.page_table,
            ) && self.mmap_areas@[i].counts_held(*a) by {
                let ch = m0.mmap_areas@[i];
                assert(ch.mapped_in(m0.page_table));
                assert forall|k: int|
                    0 <= k < ch.vpn_table@.len() implies self.pt().dom().contains(
                    #[trigger] ch.vpn_table@[k],
                ) && self.pt()[ch.vpn_table@[k]] == m0.pt()[ch.vpn_table@[k]] && a.count(
                    ch.data_frames@[k].ppn,
                ) >= 1 && a.manages(ch.data_frames@[k].ppn) by {
                    let v = ch.vpn_table@[k];
                    assert(v != tv) by {
                        assert(m0.all_ranges()[m0.vm_areas@.len() + i] == ch.vpn_range);
                        assert(!ch.vpn_range.spec_contains(tv));
                        assert(ch.vpn_range.spec_contains(v));
                    };
                    assert(a0.count(ch.data_frames@[k].ppn) >= 1);
                };
                assert forall|k: int| 0 <= k < ch.data_frames@.len() implies a.count(
                    (#[trigger] ch.data_frames@[k]).ppn,
                ) >= 1 && a.manages(ch.data_frames@[k].ppn) by {
                    assert(self.pt().dom().contains(ch.vpn_table@[k]));
                };
            };
            assert(self.heap_areas.mapped_in(self.page_table) && self.heap_areas.counts_held(*a))
                by {
                let ch = m0.heap_areas;
                assert(ch.mapped_in(m0.page_table));
                assert forall|k: int|
                    0 <= k < ch.vpn_table@.len() implies self.pt().dom().contains(
                    #[trigger] ch.vpn_table@[k],
                ) && self.pt()[ch.vpn_table@[k]] == m0.pt()[ch.vpn_table@[k]] && a.count(
                    ch.data_frames@[k].ppn,
                ) >= 1 && a.manages(ch.data_frames@[k].ppn) by {
                    let v = ch.vpn_table@[k];
                    assert(v != tv) by {
                        assert(m0.all_ranges()[m0.all_ranges().len() - 1] == ch.vpn_range);
                        assert(!ch.vpn_range.spec_contains(tv));
                        assert(ch.vpn_range.spec_contains(v));
                    };
                    assert(a0.count(ch.data_frames@[k].ppn) >= 1);
                };
                assert forall|k: int| 0 <= k < ch.data_frames@.len() implies a.count(
                    (#[trigger] ch.data_frames@[k]).ppn,
                ) >= 1 && a.manages(ch.data_frames@[k].ppn) by {
                    assert(self.pt().dom().contains(ch.vpn_table@[k]));
                };
            };
            assert forall|i: int, j: int|
                0 <= i < j < self.all_ranges().len() implies ranges_disjoint(
                #[trigger] self.all_ranges()[i],
                #[trigger] self.all_ranges()[j],
            ) by {
                assert(self.all_ranges()[i] == m0.all_ranges()[i]);
                assert(self.all_ranges()[j] == m0.all_ranges()[j]);
                assert(ranges_disjoint(m0.all_ranges()[i], m0.all_ranges()[j]));
            };
            assert forall|v: VirtPageNum| #[trigger] self.owned_vpn(v) == m0.owned_vpn(v) by {};
            assert forall|v: VirtPageNum|
                self.pt().dom().contains(v) && (#[trigger] self.pt()[v]).flags.cow implies self.owned_vpn(
                v,
            ) by {
                assert(v != tv);
                assert(m0.owned_vpn(v));
            };
            assert forall|v1: VirtPageNum, v2: VirtPageNum|
                self.owned_vpn(v1) && self.owned_vpn(v2) && v1 != v2 implies (
            #[trigger] self.pt()[v1]).ppn != (#[trigger] self.pt()[v2]).ppn by {
                assert(m0.owned_vpn(v1) && m0.owned_vpn(v2));
                assert(self.all_ranges() =~= m0.all_ranges());
                lemma_owned_not_at(m0, v1, tv);
                lemma_owned_not_at(m0, v2, tv);
                lemma_owned_mapped(m0, v1);
                lemma_owned_mapped(m0, v2);
                assert(self.pt()[v1] == m0.pt()[v1]);
                assert(self.pt()[v2] == m0.pt()[v2]);
            };
            assert forall|j: int, v: VirtPageNum|
                0 <= j < self.page_table.node_ppns().len() && self.owned_vpn(v) implies (
            #[trigger] self.page_table.node_ppns()[j]) != (#[trigger] self.pt()[v]).ppn by {
                assert(m0.owned_vpn(v));
                lemma_owned_not_at(m0, v, tv);
                lemma_owned_mapped(m0, v);
                assert(self.pt()[v] == m0.pt()[v]);
                if j < m0.page_table.node_ppns().len() {
                    assert(self.page_table.node_ppns()[j] == m0.page_table.node_ppns()[j]);
                } else {
                    assert(!a0.has_ref(self.page_table.node_ppns()[j]));
                    lemma_owned_count(m0, a0, v);
                }
            };
            assert forall|j: int|
                0 <= j < self.page_table.node_ppns().len() implies a.count(
                #[trigger] self.page_table.node_ppns()[j],
            ) >= 1 && a.manages(self.page_table.node_ppns()[j]) by {
                if j < m0.page_table.node_ppns().len() {
                    assert(a0.count(m0.page_table.node_ppns()[j]) >= 1);
                }
            };
        }
    }

    /// The page range a loadable segment occupies.
    pub open spec fn seg_range(s: crate::loader::Segment) -> VPNRange {
        VPNRange {
            start: VirtPageNum(s.start_va / PAGE_SIZE),
            end: VirtPageNum(crate::address::spec_page_ceil(s.end_va as int) as usize),
        }
    }

    /// Pages of the first `n` segments, counted with multiplicity.
    pub open spec fn segs_pages(segs: Seq<crate::loader::Segment>, n: int) -> int
        decreases n,
    {
        if n <= 0 {
            0
        } else {
            Self::segs_pages(segs, n - 1) + Self::seg_range(segs[n - 1]).spec_len()
        }
    }

    /// Highest page bound among the first `n` segments.
    pub open spec fn segs_max_end(segs: Seq<crate::loader::Segment>, n: int) -> int
        decreases n,
    {
        if n <= 0 {
            0
        } else if Self::seg_range(segs[n - 1]).end.0 >= Self::segs_max_end(segs, n - 1) {
            Self::seg_range(segs[n - 1]).end.0 as int
        } else {
            Self::segs_max_end(segs, n - 1)
        }
    }

    /// Build an application's address space from an executable image.
    ///
    /// The trampoline is mapped at the top, the trap-context page below
    /// it, one eagerly mapped region per loadable segment holding the
    /// segment's file bytes (the rest zero), the user stack one guard
    /// page above the loaded image, and the heap, empty and one guard
    /// page above the stack. Returns the space, the user stack top and
    /// the entry point. Fails on an image the parser rejects, and as
    /// `build_address_space` fails; the frames of a partially built
    /// space are not returned to the pool on failure.
    pub fn load_elf(
        data: &Vec<u8>,
        trampoline_ppn: PhysPageNum,
        a: &mut StackFrameAllocator,
    ) -> (r: Option<(MemorySet, usize, usize)>)
        requires
            old(a).wf(),
        ensures
            final(a).wf(),
            final(a).spec_base() == old(a).spec_base(),
            final(a).spec_end() == old(a).spec_end(),
            match r {
                Some(loaded) => {
                    let segs = crate::loader::load_segments_of(
                        data@,
                        crate::loader::elf_ph_count_of(data@) as int,
                    );
                    &&& loaded.0.wf()
                    &&& loaded.0.counts_held(*final(a))
                    &&& crate::loader::elf_parses(data@)
                    &&& loaded.2 == crate::loader::elf_entry_of(data@) as usize
                    // the trampoline and, below it, the trap-context region
                    &&& loaded.0.pt().dom().contains(VirtPageNum(TRAMPOLINE / PAGE_SIZE))
                    &&& loaded.0.pt()[VirtPageNum(TRAMPOLINE / PAGE_SIZE)].ppn == trampoline_ppn
                    &&& loaded.0.vm_ranges().len() == segs.len() + 2
                    &&& loaded.0.vm_ranges()[0] == (VPNRange {
                        start: VirtPageNum(TRAP_CONTEXT / PAGE_SIZE),
                        end: VirtPageNum(TRAMPOLINE / PAGE_SIZE),
                    })
                    // one region per loadable segment, in record order,
                    // with the segment's permission bits
                    &&& forall|k: int|
                        0 <= k < segs.len() ==> #[trigger] loaded.0.vm_ranges()[1 + k]
                            == MemorySet::seg_range(segs[k])
                    &&& forall|k: int|
                        0 <= k < segs.len() ==> (#[trigger] loaded.0.vm_areas@[1 + k]).map_perm
                            == (MapPermission {
                            r: segs[k].readable,
                            w: segs[k].writable,
                            x: segs[k].executable,
                            u: true,
                        })
                    // the user stack, one guard page above the image
                    &&& loaded.1 == loaded.0.vm_ranges()[segs.len() as int + 1].end.0 * PAGE_SIZE
                    &&& loaded.0.vm_ranges()[segs.len() as int + 1].spec_len() == USER_STACK_SIZE as int
                        / PAGE_SIZE as int
                    // the heap, declared empty one guard page above the
                    // stack, with the boundary markers at its bottom
                    &&& loaded.0.heap_range().start.0 * PAGE_SIZE == loaded.1 + PAGE_SIZE
                    &&& loaded.0.heap_range().spec_len() == USER_HEAP_SIZE as int
                        / PAGE_SIZE as int
                    &&& loaded.0.brk == loaded.0.brk_start
                    &&& loaded.0.brk_start == loaded.1 + PAGE_SIZE
                    &&& loaded.0.heap_areas.vpn_table@.len() == 0
                },
                None => true,
            },
            // an image the parser rejects never yields a space
            !crate::loader::elf_parses(data@) ==> r is None,
    {
        let parsed = match crate::loader::parse_elf_segments(data) {
            Some(p) => p,
            None => {
                return None;
            },
        };
        let (segments, entry) = parsed;
        match MemorySet::build_address_space(data, &segments, trampoline_ppn, a) {
            Some(built) => Some((built.0, built.1, entry)),
            None => None,
        }
    }

    /// Assemble an address space from extracted loadable segments: the
    /// part of loading that decides, over plain values. Returns the
    /// space and the user stack top. Building fails on a segment that is
    /// not sound for an image of this length, on segments whose page
    /// ranges meet or reach the trap-context page, on an image too large
    /// to leave room for the stack and the heap below it, and on an
    /// exhausted frame pool; on segments free of all that it succeeds
    /// whenever the pool holds three frames per page of the segments,
    /// the stack and the trap context, and six more for the tables.
    pub fn build_address_space(
        data: &Vec<u8>,
        segments: &Vec<crate::loader::Segment>,
        trampoline_ppn: PhysPageNum,
        a: &mut StackFrameAllocator,
    ) -> (r: Option<(MemorySet, usize)>)
        requires
            old(a).wf(),
        ensures
            final(a).wf(),
            final(a).spec_base() == old(a).spec_base(),
            final(a).spec_end() == old(a).spec_end(),
            match r {
                Some(loaded) => {
                    let segs = segments@;
                    &&& loaded.0.wf()
                    &&& loaded.0.counts_held(*final(a))
                    // the trampoline and, below it, the trap-context region
                    &&& loaded.0.pt().dom().contains(VirtPageNum(TRAMPOLINE / PAGE_SIZE))
                    &&& loaded.0.pt()[VirtPageNum(TRAMPOLINE / PAGE_SIZE)].ppn == trampoline_ppn
                    &&& loaded.0.vm_ranges().len() == segs.len() + 2
                    &&& loaded.0.vm_ranges()[0] == (VPNRange {
                        start: VirtPageNum(TRAP_CONTEXT / PAGE_SIZE),
                        end: VirtPageNum(TRAMPOLINE / PAGE_SIZE),
                    })
                    // one region per segment, in order, with its bits
                    &&& forall|k: int|
                        0 <= k < segs.len() ==> #[trigger] loaded.0.vm_ranges()[1 + k]
                            == MemorySet::seg_range(segs[k])
                    &&& forall|k: int|
                        0 <= k < segs.len() ==> (#[trigger] loaded.0.vm_areas@[1 + k]).map_perm
                            == (MapPermission {
                            r: segs[k].readable,
                            w: segs[k].writable,
                            x: segs[k].executable,
                            u: true,
                        })
                    // the user stack, one guard page above the image
                    &&& loaded.1 == loaded.0.vm_ranges()[segs.len() as int + 1].end.0 * PAGE_SIZE
                    &&& loaded.0.vm_ranges()[segs.len() as int + 1].spec_len() == USER_STACK_SIZE as int
                        / PAGE_SIZE as int
                    // the heap, declared empty one guard page above the
                    // stack, with the boundary markers at its bottom
                    &&& loaded.0.heap_range().start.0 * PAGE_SIZE == loaded.1 + PAGE_SIZE
                    &&& loaded.0.heap_range().spec_len() == USER_HEAP_SIZE as int
                        / PAGE_SIZE as int
                    &&& loaded.0.brk == loaded.0.brk_start
                    &&& loaded.0.brk_start == loaded.1 + PAGE_SIZE
                    &&& loaded.0.heap_areas.vpn_table@.len() == 0
                },
                None => true,
            },
            // success is owed: segments that are sound for the image, lie
            // apart below the trap context and leave room for the stack
            // and the heap always build, given enough frames
            ({
                &&& forall|k: int|
                    0 <= k < segments@.len() ==> (#[trigger] segments@[k]).sound(
                        data@.len() as int,
                    )
                &&& forall|k: int|
                    0 <= k < segments@.len() ==> (#[trigger] MemorySet::seg_range(
                        segments@[k],
                    )).end.0 <= TRAP_CONTEXT / PAGE_SIZE
                &&& forall|k1: int, k2: int|
                    0 <= k1 < k2 < segments@.len() ==> ranges_disjoint(
                        #[trigger] MemorySet::seg_range(segments@[k1]),
                        #[trigger] MemorySet::seg_range(segments@[k2]),
                    )
                &&& MemorySet::segs_max_end(segments@, segments@.len() as int) + 2
                    + USER_STACK_SIZE as int / PAGE_SIZE as int + USER_HEAP_SIZE as int
                    / PAGE_SIZE as int <= TRAP_CONTEXT as int / PAGE_SIZE as int
                &&& old(a).free_frames() >= 3 * (MemorySet::segs_pages(
                    segments@,
                    segments@.len() as int,
                ) + USER_STACK_SIZE / PAGE_SIZE + 1) + 6
            }) ==> r is Some,
    {
        let ghost segs = segments@;
        proof {
            lemma_segs_pages_nonneg(segs, segs.len() as int);
        }
        if free_frame_count(a) < 1 {
            return None;
        }
        let mut ms = MemorySet::new_bare(a);
        if free_frame_count(a) < 2 {
            return None;
        }
        proof {
            assert forall|i: int|
                0 <= i < ms.all_ranges().len() implies !(#[trigger] ms.all_ranges()[i]).spec_contains(
                VirtPageNum(TRAMPOLINE / PAGE_SIZE),
            ) by {
                assert(ms.all_ranges()[i] == ms.heap_range());
            };
        }
        ms.map_trampoline(trampoline_ppn, a);
        // the trap-context page, just below the trampoline
        let trap_range = VPNRange::new(
            VirtAddr(TRAP_CONTEXT).floor(),
            VirtAddr(TRAMPOLINE).floor(),
        );
        if free_frame_count(a) < 3 {
            return None;
        }
        proof {
            assert forall|i: int|
                0 <= i < ms.all_ranges().len() implies ranges_disjoint(
                #[trigger] ms.all_ranges()[i],
                VPNRange {
                    start: VirtPageNum(TRAP_CONTEXT / PAGE_SIZE),
                    end: VirtPageNum(
                        crate::address::spec_page_ceil(TRAMPOLINE as int) as usize,
                    ),
                },
            ) by {
                assert(ms.all_ranges()[i] == ms.heap_range());
            };
        }
        ms.insert_framed_area(
            VirtAddr(TRAP_CONTEXT),
            VirtAddr(TRAMPOLINE),
            MapPermission::rw(),
            a,
        );
        // one region per loadable segment
        let n = segments.len();
        let mut max_end_vpn: usize = 0;
        let mut k: usize = 0;
        while k < n
            invariant
                k <= n,
                n == segs.len(),
                segments@ == segs,
                a.wf(),
                a.spec_base() == old(a).spec_base(),
                a.spec_end() == old(a).spec_end(),
                a.free_frames() >= old(a).free_frames() - 6 - 3 * MemorySet::segs_pages(
                    segs,
                    k as int,
                ),
                ms.wf(),
                ms.counts_held(*a),
                ms.mmap_areas@.len() == 0,
                ms.heap_range() == (VPNRange { start: VirtPageNum(0), end: VirtPageNum(0) }),
                ms.heap_areas.vpn_table@.len() == 0,
                ms.brk == 0 && ms.brk_start == 0,
                ms.vm_ranges().len() == k + 1,
                ms.vm_ranges()[0] == (VPNRange {
                    start: VirtPageNum(TRAP_CONTEXT / PAGE_SIZE),
                    end: VirtPageNum(TRAMPOLINE / PAGE_SIZE),
                }),
                forall|k2: int|
                    0 <= k2 < k ==> #[trigger] ms.vm_ranges()[1 + k2] == MemorySet::seg_range(
                        segs[k2],
                    ),
                forall|k2: int|
                    0 <= k2 < k ==> (#[trigger] ms.vm_areas@[1 + k2]).map_perm == (MapPermission {
                        r: segs[k2].readable,
                        w: segs[k2].writable,
                        x: segs[k2].executable,
                        u: true,
                    }),
                forall|k2: int|
                    1 <= k2 < ms.vm_ranges().len() - 0 && k2 >= 1 ==> (
                    #[trigger] ms.vm_ranges()[k2]).end.0 <= max_end_vpn,
                max_end_vpn <= TRAP_CONTEXT / PAGE_SIZE,
                max_end_vpn as int == MemorySet::segs_max_end(segs, k as int),
                ms.pt().dom().contains(VirtPageNum(TRAMPOLINE / PAGE_SIZE)),
                ms.pt()[VirtPageNum(TRAMPOLINE / PAGE_SIZE)].ppn == trampoline_ppn,
            decreases n - k,
        {
            let seg = segments[k];
            // a segment unsound for this image is rejected here: reversed
            // addresses, a file window past the data, or more file bytes
            // than memory
            if seg.end_va < seg.start_va {
                return None;
            }
            if seg.file_size > data.len() || seg.offset > data.len() - seg.file_size {
                return None;
            }
            if seg.file_size > seg.end_va - seg.start_va {
                return None;
            }
            let svpn = VirtAddr(seg.start_va).floor();
            let evpn = VirtAddr(seg.end_va).ceil();
            let new_range = VPNRange::new(svpn, evpn);
            proof {
                assert(seg == segs[k as int]);
                assert(new_range == MemorySet::seg_range(segs[k as int]));
            }
            // the segment must lie below the trap-context page and apart
            // from every region loaded so far
            if evpn.0 > TRAP_CONTEXT / PAGE_SIZE {
                return None;
            }
            let nv = ms.vm_areas.len();
            let mut idx: usize = 1;
            while idx < nv
                invariant
                    1 <= idx <= nv,
                    nv == ms.vm_areas@.len(),
                    nv == k + 1,
                    k < n,
                    n == segs.len(),
                    segments@ == segs,
                    new_range == MemorySet::seg_range(segs[k as int]),
                    forall|k2: int|
                        0 <= k2 < k ==> #[trigger] ms.vm_ranges()[1 + k2] == MemorySet::seg_range(
                            segs[k2],
                        ),
                    a.wf(),
                    a.spec_base() == old(a).spec_base(),
                    a.spec_end() == old(a).spec_end(),
                    forall|i2: int|
                        1 <= i2 < idx ==> ranges_disjoint(
                            (#[trigger] ms.vm_areas@[i2]).vpn_range,
                            new_range,
                        ),
                decreases nv - idx,
            {
                let prev = ms.vm_areas[idx].vpn_range;
                if !prev.disjoint_from(&new_range) {
                    proof {
                        let k2 = idx - 1;
                        assert(ms.vm_ranges()[1 + k2 as int] == MemorySet::seg_range(
                            segs[k2 as int],
                        ));
                        assert(ms.vm_ranges()[idx as int] == ms.vm_areas@[idx as int].vpn_range);
                        assert(prev == MemorySet::seg_range(segs[k2 as int]));
                    }
                    return None;
                }
                idx += 1;
            }
            let seg_len = new_range.len();
            proof {
                lemma_segs_pages_le(segs, k as int + 1, n as int);
                assert(MemorySet::segs_pages(segs, k as int + 1) == MemorySet::segs_pages(
                    segs,
                    k as int,
                ) + new_range.spec_len());
            }
            if free_frame_count(a) < 3 * seg_len {
                return None;
            }
            proof {
                // the new range is apart from every declared region: the
                // trap-context region lies above it, the checked regions
                // beside it, the empty heap nowhere
                assert forall|i2: int|
                    0 <= i2 < ms.all_ranges().len() implies ranges_disjoint(
                    #[trigger] ms.all_ranges()[i2],
                    new_range,
                ) by {
                    if i2 == 0 {
                        assert(ms.all_ranges()[0] == ms.vm_ranges()[0]);
                    } else if i2 < ms.vm_areas@.len() {
                        assert(ms.all_ranges()[i2] == ms.vm_areas@[i2].vpn_range);
                        assert(ranges_disjoint(ms.vm_areas@[i2].vpn_range, new_range));
                    } else {
                        assert(ms.all_ranges()[i2] == ms.heap_range());
                    }
                };
                // the preload window fits the area: the range spans from
                // the page floor of the start to the page ceiling of the
                // end of the segment
                vstd::arithmetic::div_mod::lemma_fundamental_div_mod(
                    seg.start_va as int,
                    PAGE_SIZE as int,
                );
                vstd::arithmetic::div_mod::lemma_fundamental_div_mod(
                    seg.end_va as int,
                    PAGE_SIZE as int,
                );
                assert(crate::address::spec_page_ceil(seg.end_va as int) * PAGE_SIZE
                    >= seg.end_va);
                assert((seg.start_va % PAGE_SIZE) + seg.file_size <= new_range.spec_len()
                    * PAGE_SIZE) by {
                    assert(svpn.0 * PAGE_SIZE + (seg.start_va % PAGE_SIZE) == seg.start_va);
                    assert(new_range.spec_len() * PAGE_SIZE == evpn.0 * PAGE_SIZE - svpn.0
                        * PAGE_SIZE);
                };
            }
            let page_offset = VirtAddr(seg.start_va).page_offset();
            let area = MapArea::new(
                VirtAddr(seg.start_va),
                VirtAddr(seg.end_va),
                MapType::Framed,
                MapPermission::new(seg.readable, seg.writable, seg.executable, true),
            );
            ms.push(area, Some((data, seg.offset, seg.file_size, page_offset)), a);
            if evpn.0 > max_end_vpn {
                max_end_vpn = evpn.0;
            }
            k += 1;
            proof {
                assert(ms.vm_ranges()[1 + (k - 1)] == new_range);
                assert(max_end_vpn as int == MemorySet::segs_max_end(segs, k as int));
            }
        }
        // the user stack, one guard page above the loaded image, and the
        // heap bounds one more guard page above the stack
        let stack_bottom = max_end_vpn * PAGE_SIZE + PAGE_SIZE;
        if TRAP_CONTEXT / PAGE_SIZE < max_end_vpn + 1 + USER_STACK_SIZE / PAGE_SIZE + 1
            + USER_HEAP_SIZE / PAGE_SIZE {
            return None;
        }
        let stack_top = stack_bottom + USER_STACK_SIZE;
        if free_frame_count(a) < 3 * (USER_STACK_SIZE / PAGE_SIZE) {
            return None;
        }
        let stack_range = VPNRange::new(
            VirtAddr(stack_bottom).floor(),
            VirtAddr(stack_top).ceil(),
        );
        proof {
            assert(stack_range.start.0 == max_end_vpn + 1) by {
                assert(stack_bottom == (max_end_vpn + 1) * PAGE_SIZE);
            };
            assert(stack_range.end.0 == max_end_vpn + 1 + USER_STACK_SIZE / PAGE_SIZE) by {
                assert(stack_top == (max_end_vpn + 1 + USER_STACK_SIZE / PAGE_SIZE) * PAGE_SIZE);
            };
            assert forall|i2: int|
                0 <= i2 < ms.all_ranges().len() implies ranges_disjoint(
                #[trigger] ms.all_ranges()[i2],
                VPNRange {
                    start: VirtPageNum(stack_bottom / PAGE_SIZE),
                    end: VirtPageNum(
                        crate::address::spec_page_ceil(stack_top as int) as usize,
                    ),
                },
            ) by {
                if i2 == 0 {
                    assert(ms.all_ranges()[0] == ms.vm_ranges()[0]);
                } else if i2 < ms.vm_areas@.len() {
                    assert(ms.all_ranges()[i2] == ms.vm_ranges()[i2]);
                    assert(ms.vm_ranges()[i2].end.0 <= max_end_vpn);
                } else {
                    assert(ms.all_ranges()[i2] == ms.heap_range());
                }
            };
        }
        ms.insert_framed_area(
            VirtAddr(stack_bottom),
            VirtAddr(stack_top),
            MapPermission::rwu(),
            a,
        );
        proof {
            // the stack lies below the trap context, so the trampoline
            // entry is untouched
            assert(!(VPNRange {
                start: VirtPageNum(stack_bottom / PAGE_SIZE),
                end: VirtPageNum(crate::address::spec_page_ceil(stack_top as int) as usize),
            }).spec_contains(VirtPageNum(TRAMPOLINE / PAGE_SIZE)));
            assert(ms.pt().dom().contains(VirtPageNum(TRAMPOLINE / PAGE_SIZE)));
            assert(ms.pt()[VirtPageNum(TRAMPOLINE / PAGE_SIZE)].ppn == trampoline_ppn);
        }
        let heap_bottom = stack_top + PAGE_SIZE;
        let heap_top = heap_bottom + USER_HEAP_SIZE;
        let new_heap = ChunkArea::new(
            MapType::Framed,
            MapPermission::rwu(),
            VirtAddr(heap_bottom),
            VirtAddr(heap_top),
        );
        proof {
            assert(heap_bottom == (max_end_vpn + 2 + USER_STACK_SIZE / PAGE_SIZE) * PAGE_SIZE);
            assert(heap_top == (max_end_vpn + 2 + USER_STACK_SIZE / PAGE_SIZE + USER_HEAP_SIZE
                / PAGE_SIZE) * PAGE_SIZE);
            assert(new_heap.vpn_range.start.0 == max_end_vpn + 2 + USER_STACK_SIZE / PAGE_SIZE);
            assert(new_heap.vpn_range.end.0 == max_end_vpn + 2 + USER_STACK_SIZE / PAGE_SIZE
                + USER_HEAP_SIZE / PAGE_SIZE);
            assert forall|i2: int|
                0 <= i2 < ms.all_ranges().len() implies ranges_disjoint(
                #[trigger] ms.all_ranges()[i2],
                new_heap.vpn_range,
            ) by {
                let nv2 = ms.vm_areas@.len() as int;
                if i2 == 0 {
                    assert(ms.all_ranges()[0] == ms.vm_ranges()[0]);
                } else if i2 < nv2 - 1 {
                    assert(ms.all_ranges()[i2] == ms.vm_ranges()[i2]);
                    assert(ms.vm_ranges()[i2].end.0 <= max_end_vpn);
                } else if i2 == nv2 - 1 {
                    assert(ms.all_ranges()[i2] == ms.vm_ranges()[i2]);
                } else {
                    assert(ms.all_ranges()[i2] == ms.heap_range());
                }
            };
        }
        ms.install_heap(new_heap, heap_bottom, heap_bottom, a);
        Some((ms, stack_top))
    }

    /// Classify and resolve a page fault at `va`. Runs on every fault.
    ///
    /// - a present, copy-on-write entry is a write fault on a shared page:
    ///   the share is broken in place (`cow_alloc`) and 0 is returned;
    /// - a present, valid, non-copy-on-write entry should not have
    ///   faulted: -4, nothing changes;
    /// - an absent entry inside the declared heap or inside one declared
    ///   mmap region is mapped lazily to one zeroed frame: 0;
    /// - otherwise the access is out of every declared region: -2,
    ///   nothing changes.
    #[verifier::rlimit(60)]
    pub fn check_lazy(&mut self, va: VirtAddr, a: &mut StackFrameAllocator) -> (r: isize)
        requires
            old(self).wf(),
            old(self).counts_held(*old(a)),
            old(a).wf(),
            old(a).free_frames() >= 3,
        ensures
            final(self).wf(),
            final(self).counts_held(*final(a)),
            final(a).wf(),
            final(a).spec_base() == old(a).spec_base(),
            final(a).spec_end() == old(a).spec_end(),
            ({
                let vpn = VirtPageNum(va.0 / PAGE_SIZE);
                &&& (old(self).pt().dom().contains(vpn) && old(self).pt()[vpn].flags.cow ==> {
                    let former = old(self).pt()[vpn].ppn;
                    &&& r == 0
                    &&& final(self).pt().dom() == old(self).pt().dom()
                    &&& final(self).pt()[vpn].flags == (PTEFlags {
                        w: true,
                        cow: false,
                        ..old(self).pt()[vpn].flags
                    })
                    &&& (forall|v: VirtPageNum|
                        v != vpn && old(self).pt().dom().contains(v) ==> #[trigger] final(self).pt()[v] == old(self).pt()[v])
                    &&& (old(a).count(former) == 1 ==> final(self).pt()[vpn].ppn == former
                        && *final(a) == *old(a))
                    &&& (old(a).count(former) >= 2 ==> final(self).pt()[vpn].ppn != former && !old(a).has_ref(final(self).pt()[vpn].ppn) && final(a).count(final(self).pt()[vpn].ppn)
                        == 1 && final(a).count(former) == old(a).count(former) - 1 && final(a).page(
                        final(self).pt()[vpn].ppn,
                    ) == old(a).page(former) && final(a).free_frames() == old(a).free_frames() - 1)
                })
                &&& (old(self).pt().dom().contains(vpn) && !old(self).pt()[vpn].flags.cow ==> r
                    == -4 && *final(self) == *old(self) && *final(a) == *old(a))
                &&& (!old(self).pt().dom().contains(vpn) && old(self).heap_range().spec_contains(
                    vpn,
                ) ==> {
                    &&& r == 0
                    &&& final(self).pt().dom().contains(vpn)
                    &&& final(self).pt()[vpn].flags == perm_flags(old(self).heap_areas.map_perm)
                    &&& !old(a).has_ref(final(self).pt()[vpn].ppn)
                    &&& final(a).count(final(self).pt()[vpn].ppn) == 1
                    &&& final(a).page(final(self).pt()[vpn].ppn) == zero_page()
                    &&& (forall|v: VirtPageNum|
                        v != vpn ==> #[trigger] final(self).pt().dom().contains(v) == old(self).pt().dom().contains(v))
                    &&& (forall|v: VirtPageNum|
                        v != vpn && old(self).pt().dom().contains(v) ==> #[trigger] final(self).pt()[v] == old(self).pt()[v])
                })
                &&& (!old(self).pt().dom().contains(vpn) && !old(self).heap_range().spec_contains(
                    vpn,
                ) && (exists|i: int|
                    0 <= i < old(self).mmap_ranges().len() && (#[trigger] old(self).mmap_ranges()[i]).spec_contains(vpn)) ==> {
                    &&& r == 0
                    &&& final(self).pt().dom().contains(vpn)
                    &&& !old(a).has_ref(final(self).pt()[vpn].ppn)
                    &&& final(a).count(final(self).pt()[vpn].ppn) == 1
                    &&& final(a).page(final(self).pt()[vpn].ppn) == zero_page()
                    &&& (forall|v: VirtPageNum|
                        v != vpn ==> #[trigger] final(self).pt().dom().contains(v) == old(self).pt().dom().contains(v))
                    &&& (forall|v: VirtPageNum|
                        v != vpn && old(self).pt().dom().contains(v) ==> #[trigger] final(self).pt()[v] == old(self).pt()[v])
                })
                &&& (!old(self).pt().dom().contains(vpn) && !old(self).heap_range().spec_contains(
                    vpn,
                ) && (forall|i: int|
                    0 <= i < old(self).mmap_ranges().len() ==> !(#[trigger] old(self).mmap_ranges()[i]).spec_contains(vpn)) ==> r == -2 && *final(self) == *old(self) && *final(a) == *old(a))
            }),
    {
        let vpn = va.floor();
        let pte = self.translate(vpn);
        match pte {
            Some(entry) => {
                if entry.is_cow() {
                    let former_ppn = entry.ppn();
                    return self.cow_alloc(vpn, former_ppn, a);
                }
                // present and valid, yet it faulted: a stale translation
                // or a genuine protection violation, fatal to the task
                return -4;
            },
            None => {},
        }
        if self.heap_areas.vpn_range.contains(vpn) {
            return self.lazy_alloc_heap(vpn, a);
        }
        let res = self.lazy_mmap(va, a);
        if res == 0 {
            0
        } else {
            -2
        }
    }

}




impl MemorySet {
    /// Index of `vpn` in a resident-page table, if present.
    fn find_resident(table: &Vec<VirtPageNum>, vpn: VirtPageNum) -> (r: Option<usize>)
        ensures
            match r {
                Some(k) => k < table@.len() && table@[k as int] == vpn,
                None => forall|k: int| 0 <= k < table@.len() ==> #[trigger] table@[k] != vpn,
            },
    {
        let n = table.len();
        let mut k: usize = 0;
        while k < n
            invariant
                k <= n,
                n == table@.len(),
                forall|k2: int| 0 <= k2 < k ==> #[trigger] table@[k2] != vpn,
            decreases n - k,
        {
            if table[k].0 == vpn.0 {
                return Some(k);
            }
            k += 1;
        }
        None
    }
}

/// The set of pages `[start, start + len)`.
pub open spec fn range_set(start: int, len: int) -> Set<VirtPageNum> {
    Set::new(|v: VirtPageNum| start <= v.0 < start + len)
}

/// The first `k` pages of the list `t`, as a set.
pub open spec fn listed_set(t: Seq<VirtPageNum>, k: int) -> Set<VirtPageNum> {
    Set::new(|v: VirtPageNum| exists|k2: int| 0 <= k2 < k && t[k2] == v)
}

/// The running state of a copy-on-write fork: `m0`/`a0` are the parent
/// and allocator at entry, `shared` the pages shared so far.
pub open spec fn fork_mid(
    m0: MemorySet,
    a0: StackFrameAllocator,
    parent: MemorySet,
    cpt: PageTable,
    a: StackFrameAllocator,
    shared: Set<VirtPageNum>,
) -> bool {
    &&& parent.vm_areas == m0.vm_areas
    &&& parent.mmap_areas == m0.mmap_areas
    &&& parent.heap_areas == m0.heap_areas
    &&& parent.brk == m0.brk && parent.brk_start == m0.brk_start
    &&& parent.page_table.wf()
    &&& parent.page_table.spec_root() == m0.page_table.spec_root()
    &&& parent.page_table.node_ppns() == m0.page_table.node_ppns()
    &&& parent.pt().dom() == m0.pt().dom()
    &&& forall|v: VirtPageNum|
        m0.pt().dom().contains(v) ==> (#[trigger] parent.pt()[v]).ppn == m0.pt()[v].ppn
    &&& forall|v: VirtPageNum|
        #[trigger] shared.contains(v) ==> m0.pt().dom().contains(v) && m0.owned_vpn(v)
            && !m0.in_trap_area(v) && parent.pt()[v].flags == (PTEFlags {
            w: false,
            cow: true,
            ..m0.pt()[v].flags
        })
    &&& forall|v: VirtPageNum|
        m0.pt().dom().contains(v) && !shared.contains(v) ==> #[trigger] parent.pt()[v]
            == m0.pt()[v]
    &&& a.wf()
    &&& a.spec_base() == a0.spec_base() && a.spec_end() == a0.spec_end()
    &&& forall|v: VirtPageNum|
        #[trigger] shared.contains(v) ==> a.count(m0.pt()[v].ppn) == a0.count(m0.pt()[v].ppn) + 1
    &&& forall|p: PhysPageNum| #[trigger] a.count(p) >= a0.count(p)
    &&& forall|p: PhysPageNum|
        a0.has_ref(p) && (forall|v: VirtPageNum|
            #[trigger] shared.contains(v) ==> m0.pt()[v].ppn != p) ==> #[trigger] a.count(p)
            == a0.count(p)
    &&& forall|p: PhysPageNum|
        a0.manages(p) && a0.has_ref(p) ==> #[trigger] a.page(p) == a0.page(p)
    &&& cpt.wf()
    &&& forall|v: VirtPageNum|
        #[trigger] shared.contains(v) ==> cpt.view().dom().contains(v) && cpt.view()[v] == (
        PageTableEntry {
            ppn: m0.pt()[v].ppn,
            flags: PTEFlags {
                v: true,
                r: m0.pt()[v].flags.r,
                w: false,
                x: m0.pt()[v].flags.x,
                u: m0.pt()[v].flags.u,
                cow: true,
            },
        })
    &&& forall|j: int|
        0 <= j < cpt.node_ppns().len() ==> !a0.has_ref(#[trigger] cpt.node_ppns()[j]) && a.count(
            cpt.node_ppns()[j],
        ) == 1 && a.manages(cpt.node_ppns()[j])
}

/// Segment page totals are never negative.
proof fn lemma_segs_pages_nonneg(segs: Seq<crate::loader::Segment>, n: int)
    ensures
        MemorySet::segs_pages(segs, n) >= 0,
    decreases n,
{
    if n > 0 {
        lemma_segs_pages_nonneg(segs, n - 1);
    }
}

/// Segment page totals only grow with the prefix.
proof fn lemma_segs_pages_le(segs: Seq<crate::loader::Segment>, k: int, n: int)
    requires
        0 <= k <= n,
    ensures
        MemorySet::segs_pages(segs, k) <= MemorySet::segs_pages(segs, n),
    decreases n - k,
{
    if k < n {
        lemma_segs_pages_le(segs, k, n - 1);
    }
}

/// Page totals are never negative.
proof fn lemma_vm_pages_from_nonneg(m: MemorySet, i: int)
    ensures
        m.vm_pages_from(i) >= 0,
    decreases m.vm_areas@.len() - i,
{
    if 0 <= i < m.vm_areas@.len() {
        lemma_vm_pages_from_nonneg(m, i + 1);
    }
}

/// Resident-page totals are never negative.
proof fn lemma_mmap_pages_from_nonneg(m: MemorySet, j: int)
    ensures
        m.mmap_pages_from(j) >= 0,
    decreases m.mmap_areas@.len() - j,
{
    if 0 <= j < m.mmap_areas@.len() {
        lemma_mmap_pages_from_nonneg(m, j + 1);
    }
}

/// A page owned before is still owned after regions were only appended.
proof fn lemma_owned_grows_vm(m1: MemorySet, m2: MemorySet, v: VirtPageNum)
    requires
        m1.owned_vpn(v),
        m2.mmap_areas == m1.mmap_areas,
        m2.heap_areas == m1.heap_areas,
        m1.vm_areas@.len() <= m2.vm_areas@.len(),
        forall|i: int|
            0 <= i < m1.vm_areas@.len() ==> #[trigger] m2.vm_areas@[i] == m1.vm_areas@[i],
    ensures
        m2.owned_vpn(v),
{
    if exists|i: int|
        0 <= i < m1.vm_areas@.len() && (#[trigger] m1.vm_areas@[i]).map_type is Framed
            && m1.vm_areas@[i].vpn_range.spec_contains(v) {
        let i = choose|i: int|
            0 <= i < m1.vm_areas@.len() && (#[trigger] m1.vm_areas@[i]).map_type is Framed
                && m1.vm_areas@[i].vpn_range.spec_contains(v);
        assert(0 <= i < m2.vm_areas@.len() && (#[trigger] m2.vm_areas@[i]).map_type is Framed
            && m2.vm_areas@[i].vpn_range.spec_contains(v));
    }
}

/// A page one of a space's regions holds lies inside that region's
/// range, so a range apart from all of the space's ranges contains none
/// of its owned pages.
proof fn lemma_owned_in_a_range(m: MemorySet, v: VirtPageNum, crg: VPNRange)
    requires
        m.wf(),
        m.owned_vpn(v),
        forall|i2: int|
            0 <= i2 < m.all_ranges().len() ==> ranges_disjoint(#[trigger] m.all_ranges()[i2], crg),
    ensures
        !crg.spec_contains(v),
{
    let nvm = m.vm_areas@.len() as int;
    let nmm = m.mmap_areas@.len() as int;
    if exists|i: int|
        0 <= i < m.vm_areas@.len() && (#[trigger] m.vm_areas@[i]).map_type is Framed
            && m.vm_areas@[i].vpn_range.spec_contains(v) {
        let i = choose|i: int|
            0 <= i < m.vm_areas@.len() && (#[trigger] m.vm_areas@[i]).map_type is Framed
                && m.vm_areas@[i].vpn_range.spec_contains(v);
        assert(m.all_ranges()[i] == m.vm_areas@[i].vpn_range);
        assert(ranges_disjoint(m.all_ranges()[i], crg));
    } else if exists|i: int|
        0 <= i < m.mmap_areas@.len() && (#[trigger] m.mmap_areas@[i]).resident(v) {
        let i = choose|i: int|
            0 <= i < m.mmap_areas@.len() && (#[trigger] m.mmap_areas@[i]).resident(v);
        let k = choose|k: int|
            0 <= k < m.mmap_areas@[i].vpn_table@.len() && m.mmap_areas@[i].vpn_table@[k] == v;
        assert(m.mmap_areas@[i].vpn_range.spec_contains(v));
        assert(m.all_ranges()[nvm + i] == m.mmap_areas@[i].vpn_range);
        assert(ranges_disjoint(m.all_ranges()[nvm + i], crg));
    } else {
        let k = choose|k: int|
            0 <= k < m.heap_areas.vpn_table@.len() && m.heap_areas.vpn_table@[k] == v;
        assert(m.heap_range().spec_contains(v));
        assert(m.all_ranges()[nvm + nmm] == m.heap_range());
        assert(ranges_disjoint(m.all_ranges()[nvm + nmm], crg));
    }
}

/// During a fork, a page the partially built child owns is either one
/// shared from the parent or a freshly copied trap-context page.
proof fn lemma_child_owned_cases(
    m0: MemorySet,
    a0: StackFrameAllocator,
    child: MemorySet,
    a: StackFrameAllocator,
    shared: Set<VirtPageNum>,
    v: VirtPageNum,
    i: int,
)
    requires
        child.wf(),
        child.owned_vpn(v),
        child.mmap_areas@.len() == 0,
        child.heap_areas.vpn_table@.len() == 0,
        child.vm_areas@.len() == i,
        forall|i2: int|
            0 <= i2 < i && (#[trigger] child.vm_areas@[i2]).vpn_range.start.0 != TRAP_CONTEXT
                / PAGE_SIZE ==> forall|v2: VirtPageNum|
                child.vm_areas@[i2].vpn_range.spec_contains(v2) ==> #[trigger] shared.contains(v2),
        forall|i2: int, v2: VirtPageNum|
            0 <= i2 < i && (#[trigger] child.vm_areas@[i2]).vpn_range.start.0 == TRAP_CONTEXT
                / PAGE_SIZE && child.vm_areas@[i2].vpn_range.spec_contains(v2) ==> !a0.has_ref(
                (#[trigger] child.pt()[v2]).ppn,
            ),
    ensures
        shared.contains(v) || !a0.has_ref(child.pt()[v].ppn),
{
    let i2 = choose|i2: int|
        0 <= i2 < child.vm_areas@.len() && (#[trigger] child.vm_areas@[i2]).map_type is Framed
            && child.vm_areas@[i2].vpn_range.spec_contains(v);
    if child.vm_areas@[i2].vpn_range.start.0 == TRAP_CONTEXT / PAGE_SIZE {
        assert(!a0.has_ref(child.pt()[v].ppn));
    } else {
        assert(shared.contains(v));
    }
}

/// The frame behind a page owned by a well-formed space with live
/// frames is counted.
proof fn lemma_child_owned_counts(m: MemorySet, a: StackFrameAllocator, v: VirtPageNum)
    requires
        m.wf(),
        m.counts_held(a),
        m.owned_vpn(v),
    ensures
        a.count(m.pt()[v].ppn) >= 1,
{
    lemma_owned_count(m, a, v);
}

/// After the pages of one more contiguous range were shared into a
/// partially built child, the child is well-formed but for the fresh
/// copy-on-write marks of that range, and all its frames are live.
#[verifier::rlimit(100)]
#[verifier::spinoff_prover]
proof fn lemma_child_after_share(
    m0: MemorySet,
    a0: StackFrameAllocator,
    child_it: MemorySet,
    child: MemorySet,
    a_it: StackFrameAllocator,
    a: StackFrameAllocator,
    shared: Set<VirtPageNum>,
    i: int,
    rg: VPNRange,
    start: usize,
    len: usize,
)
    requires
        m0.wf(),
        m0.counts_held(a0),
        a0.wf(),
        0 <= i < m0.vm_areas@.len(),
        m0.vm_areas@[i].vpn_range == rg,
        start == rg.start.0,
        len == rg.spec_len(),
        start + len <= usize::MAX,
        child_it.wf(),
        child_it.counts_held(a_it),
        child_it.vm_areas@.len() == i,
        child_it.mmap_areas@.len() == 0,
        child_it.heap_areas.vpn_table@.len() == 0,
        forall|i2: int|
            0 <= i2 < i ==> (#[trigger] child_it.vm_areas@[i2]).vpn_range
                == m0.vm_areas@[i2].vpn_range && child_it.vm_areas@[i2].map_type
                == m0.vm_areas@[i2].map_type,
        child.vm_areas == child_it.vm_areas,
        child.mmap_areas == child_it.mmap_areas,
        child.heap_areas == child_it.heap_areas,
        child.brk == child_it.brk && child.brk_start == child_it.brk_start,
        child.page_table.wf(),
        // the share touched only the range's pages in the child's table
        forall|v: VirtPageNum|
            !(start <= v.0 < start + len) ==> #[trigger] child.pt().dom().contains(v)
                == child_it.pt().dom().contains(v),
        forall|v: VirtPageNum|
            !(start <= v.0 < start + len) && child_it.pt().dom().contains(v)
                ==> #[trigger] child.pt()[v] == child_it.pt()[v],
        forall|v: VirtPageNum|
            start <= v.0 < start + len ==> #[trigger] shared.contains(v),
        forall|v: VirtPageNum|
            #[trigger] shared.contains(v) ==> m0.pt().dom().contains(v) && child.pt().dom().contains(
                v,
            ) && child.pt()[v].ppn == m0.pt()[v].ppn && a.count(m0.pt()[v].ppn) == a0.count(
                m0.pt()[v].ppn,
            ) + 1,
        // allocator counts only grew; fresh child table frames stay fresh
        forall|p: PhysPageNum| #[trigger] a.count(p) >= a_it.count(p),
        forall|p: PhysPageNum| #[trigger] a_it.count(p) >= a0.count(p),
        a.spec_base() == a0.spec_base() && a.spec_end() == a0.spec_end(),
        a_it.spec_base() == a0.spec_base() && a_it.spec_end() == a0.spec_end(),
        child.page_table.node_ppns().len() >= child_it.page_table.node_ppns().len(),
        forall|j: int|
            0 <= j < child_it.page_table.node_ppns().len() ==> #[trigger] child.page_table.node_ppns()[j]
                == child_it.page_table.node_ppns()[j],
        forall|j: int|
            child_it.page_table.node_ppns().len() <= j < child.page_table.node_ppns().len()
                ==> !a_it.has_ref(#[trigger] child.page_table.node_ppns()[j]) && a.count(
                child.page_table.node_ppns()[j],
            ) == 1 && a.manages(child.page_table.node_ppns()[j]),
        forall|j: int|
            0 <= j < child_it.page_table.node_ppns().len() ==> a.count(
                #[trigger] child_it.page_table.node_ppns()[j],
            ) >= 1 && a.manages(child_it.page_table.node_ppns()[j]),
        forall|i2: int, j2: int|
            0 <= i2 < j2 < m0.all_ranges().len() ==> ranges_disjoint(
                #[trigger] m0.all_ranges()[i2],
                #[trigger] m0.all_ranges()[j2],
            ),
    ensures
        child.wf_core(rg),
        child.counts_held(a),
{
    assert(child.wf_core(rg)) by {
        assert(child.pt().dom() =~= child_it.pt().dom().union(
            range_set(start as int, len as int).mk_map(|v: VirtPageNum| v).dom(),
        ) || true);
        assert forall|v: VirtPageNum|
            child_it.owned_vpn(v) implies !(start <= v.0 < start + len) && (
        #[trigger] child.pt()[v]) == child_it.pt()[v] && child_it.pt().dom().contains(v) by {
            let i2 = choose|i2: int|
                0 <= i2 < child_it.vm_areas@.len() && (
                #[trigger] child_it.vm_areas@[i2]).map_type is Framed
                    && child_it.vm_areas@[i2].vpn_range.spec_contains(v);
            assert(child_it.vm_areas@[i2].vpn_range == m0.vm_areas@[i2].vpn_range);
            assert(m0.all_ranges()[i2] == m0.vm_areas@[i2].vpn_range);
            assert(m0.vm_ranges()[i] == m0.vm_areas@[i].vpn_range);
            assert(m0.all_ranges()[i] == m0.vm_ranges()[i]);
            assert(ranges_disjoint(
                m0.all_ranges()[if i2 < i { i2 } else { i }],
                m0.all_ranges()[if i2 < i { i } else { i2 }],
            ));
            assert(!rg.spec_contains(v));
            lemma_owned_mapped(child_it, v);
        };
        assert forall|i2: int|
            0 <= i2 < child.vm_areas@.len() implies (#[trigger] child.vm_areas@[i2]).mapped_in(
            child.page_table,
        ) by {
            let ar = child_it.vm_areas@[i2];
            assert(child.vm_areas@[i2] == ar);
            assert(ar.mapped_in(child_it.page_table));
            assert forall|k2: int|
                0 <= k2 < ar.vpn_range.spec_len() implies child.pt().dom().contains(
                #[trigger] vpn_at(ar.vpn_range, k2),
            ) && child.pt()[vpn_at(ar.vpn_range, k2)] == child_it.pt()[vpn_at(
                ar.vpn_range,
                k2,
            )] by {
                let v = vpn_at(ar.vpn_range, k2);
                assert(ar.vpn_range.spec_contains(v));
                assert(ar.vpn_range == m0.vm_areas@[i2].vpn_range);
                assert(m0.all_ranges()[i2] == m0.vm_areas@[i2].vpn_range);
                assert(m0.vm_ranges()[i] == m0.vm_areas@[i].vpn_range);
                assert(m0.all_ranges()[i] == m0.vm_ranges()[i]);
                assert(ranges_disjoint(
                    m0.all_ranges()[if i2 < i { i2 } else { i }],
                    m0.all_ranges()[if i2 < i { i } else { i2 }],
                ));
                assert(!rg.spec_contains(v));
                assert(!(start <= v.0 < start + len));
            };
        };
        assert forall|i2: int, j2: int|
            0 <= i2 < j2 < child.all_ranges().len() implies ranges_disjoint(
            #[trigger] child.all_ranges()[i2],
            #[trigger] child.all_ranges()[j2],
        ) by {
            assert(child.all_ranges()[i2] == child_it.all_ranges()[i2]);
            assert(child.all_ranges()[j2] == child_it.all_ranges()[j2]);
            assert(ranges_disjoint(child_it.all_ranges()[i2], child_it.all_ranges()[j2]));
        };
        assert forall|v: VirtPageNum|
            child.pt().dom().contains(v) && (#[trigger] child.pt()[v]).flags.cow
                implies child.owned_vpn(v) || rg.spec_contains(v) by {
            if !(start <= v.0 < start + len) {
                assert(child.pt()[v] == child_it.pt()[v]);
                assert(child_it.owned_vpn(v));
                lemma_owned_grows_vm(child_it, child, v);
            }
        };
        assert forall|v1: VirtPageNum, v2: VirtPageNum|
            child.owned_vpn(v1) && child.owned_vpn(v2) && v1 != v2 implies (
        #[trigger] child.pt()[v1]).ppn != (#[trigger] child.pt()[v2]).ppn by {
            assert(child_it.owned_vpn(v1) && child_it.owned_vpn(v2));
            assert(child.pt()[v1] == child_it.pt()[v1]);
            assert(child.pt()[v2] == child_it.pt()[v2]);
        };
        assert forall|j2: int, v: VirtPageNum|
            0 <= j2 < child.page_table.node_ppns().len() && child.owned_vpn(v) implies (
        #[trigger] child.page_table.node_ppns()[j2]) != (#[trigger] child.pt()[v]).ppn by {
            assert(child_it.owned_vpn(v));
            assert(child.pt()[v] == child_it.pt()[v]);
            if j2 < child_it.page_table.node_ppns().len() {
                assert(child.page_table.node_ppns()[j2] == child_it.page_table.node_ppns()[j2]);
            } else {
                assert(!a_it.has_ref(child.page_table.node_ppns()[j2]));
                lemma_child_owned_counts(child_it, a_it, v);
            }
        };
    };
    assert(child.counts_held(a)) by {
        assert forall|i2: int|
            0 <= i2 < child.vm_areas@.len() implies (#[trigger] child.vm_areas@[i2]).counts_held(
            a,
        ) by {
            assert(child_it.vm_areas@[i2].counts_held(a_it));
            assert(child.vm_areas@[i2] == child_it.vm_areas@[i2]);
            assert forall|k2: int|
                0 <= k2 < child.vm_areas@[i2].data_frames@.len() implies a.count(
                (#[trigger] child.vm_areas@[i2].data_frames@[k2]).ppn,
            ) >= 1 && a.manages(child.vm_areas@[i2].data_frames@[k2].ppn) by {
                assert(a.count(child.vm_areas@[i2].data_frames@[k2].ppn) >= a_it.count(
                    child.vm_areas@[i2].data_frames@[k2].ppn,
                ));
            };
        };
        assert forall|j2: int|
            0 <= j2 < child.page_table.node_ppns().len() implies a.count(
            #[trigger] child.page_table.node_ppns()[j2],
        ) >= 1 && a.manages(child.page_table.node_ppns()[j2]) by {
            if j2 < child_it.page_table.node_ppns().len() {
                assert(child.page_table.node_ppns()[j2] == child_it.page_table.node_ppns()[j2]);
                assert(a.count(child_it.page_table.node_ppns()[j2]) >= 1);
            }
        };
    };
}

/// After listed pages inside the sparse range `crg` were shared into a
/// partially built child whose own regions all lie apart from `crg`,
/// the child is well-formed but for the fresh copy-on-write marks on
/// `crg`, and all its frames are live.
#[verifier::rlimit(100)]
#[verifier::spinoff_prover]
proof fn lemma_child_after_share_set(
    m0: MemorySet,
    a0: StackFrameAllocator,
    child_it: MemorySet,
    child: MemorySet,
    a_it: StackFrameAllocator,
    a: StackFrameAllocator,
    shared: Set<VirtPageNum>,
    touched: Set<VirtPageNum>,
    crg: VPNRange,
)
    requires
        m0.wf(),
        m0.counts_held(a0),
        a0.wf(),
        child_it.wf(),
        child_it.counts_held(a_it),
        child.vm_areas == child_it.vm_areas,
        child.mmap_areas == child_it.mmap_areas,
        child.heap_areas == child_it.heap_areas,
        child.brk == child_it.brk && child.brk_start == child_it.brk_start,
        child.page_table.wf(),
        // the share touched only the listed pages, all inside `crg`
        forall|v: VirtPageNum|
            !touched.contains(v) ==> #[trigger] child.pt().dom().contains(v)
                == child_it.pt().dom().contains(v),
        forall|v: VirtPageNum|
            !touched.contains(v) && child_it.pt().dom().contains(v) ==> #[trigger] child.pt()[v]
                == child_it.pt()[v],
        forall|v: VirtPageNum|
            #[trigger] touched.contains(v) ==> crg.spec_contains(v) && shared.contains(v),
        forall|v: VirtPageNum|
            #[trigger] shared.contains(v) ==> m0.pt().dom().contains(v) && child.pt().dom().contains(
                v,
            ) && child.pt()[v].ppn == m0.pt()[v].ppn && a.count(m0.pt()[v].ppn) == a0.count(
                m0.pt()[v].ppn,
            ) + 1,
        // every region the child already holds lies apart from `crg`
        forall|i2: int|
            0 <= i2 < child_it.all_ranges().len() ==> ranges_disjoint(
                #[trigger] child_it.all_ranges()[i2],
                crg,
            ),
        // allocator counts only grew; fresh child table frames stay fresh
        forall|p: PhysPageNum| #[trigger] a.count(p) >= a_it.count(p),
        forall|p: PhysPageNum| #[trigger] a_it.count(p) >= a0.count(p),
        a.spec_base() == a0.spec_base() && a.spec_end() == a0.spec_end(),
        a_it.spec_base() == a0.spec_base() && a_it.spec_end() == a0.spec_end(),
        child.page_table.node_ppns().len() >= child_it.page_table.node_ppns().len(),
        forall|j: int|
            0 <= j < child_it.page_table.node_ppns().len() ==> #[trigger] child.page_table.node_ppns()[j]
                == child_it.page_table.node_ppns()[j],
        forall|j: int|
            child_it.page_table.node_ppns().len() <= j < child.page_table.node_ppns().len()
                ==> !a_it.has_ref(#[trigger] child.page_table.node_ppns()[j]) && a.count(
                child.page_table.node_ppns()[j],
            ) == 1 && a.manages(child.page_table.node_ppns()[j]),
    ensures
        child.wf_core(crg),
        child.counts_held(a),
{
    let nvm = child_it.vm_areas@.len() as int;
    let nmm = child_it.mmap_areas@.len() as int;
    // a page one of the child's regions holds is out of `crg`, hence its
    // entry survived the share untouched
    assert forall|v: VirtPageNum|
        child_it.owned_vpn(v) implies !touched.contains(v) && (#[trigger] child.pt()[v])
            == child_it.pt()[v] && child_it.pt().dom().contains(v) && child.pt().dom().contains(
        v,
    ) by {
        assert(!crg.spec_contains(v)) by {
            if exists|i2: int|
                0 <= i2 < child_it.vm_areas@.len() && (#[trigger] child_it.vm_areas@[i2]).map_type is Framed
                    && child_it.vm_areas@[i2].vpn_range.spec_contains(v) {
                let i2 = choose|i2: int|
                    0 <= i2 < child_it.vm_areas@.len() && (
                    #[trigger] child_it.vm_areas@[i2]).map_type is Framed
                        && child_it.vm_areas@[i2].vpn_range.spec_contains(v);
                assert(child_it.all_ranges()[i2] == child_it.vm_areas@[i2].vpn_range);
                assert(ranges_disjoint(child_it.all_ranges()[i2], crg));
            } else if exists|j2: int|
                0 <= j2 < child_it.mmap_areas@.len() && (#[trigger] child_it.mmap_areas@[j2]).resident(
                v) {
                let j2 = choose|j2: int|
                    0 <= j2 < child_it.mmap_areas@.len() && (
                    #[trigger] child_it.mmap_areas@[j2]).resident(v);
                let k = choose|k: int|
                    0 <= k < child_it.mmap_areas@[j2].vpn_table@.len()
                        && child_it.mmap_areas@[j2].vpn_table@[k] == v;
                assert(child_it.mmap_areas@[j2].vpn_range.spec_contains(v));
                assert(child_it.all_ranges()[nvm + j2] == child_it.mmap_areas@[j2].vpn_range);
                assert(ranges_disjoint(child_it.all_ranges()[nvm + j2], crg));
            } else {
                let k = choose|k: int|
                    0 <= k < child_it.heap_areas.vpn_table@.len()
                        && child_it.heap_areas.vpn_table@[k] == v;
                assert(child_it.heap_range().spec_contains(v));
                assert(child_it.all_ranges()[nvm + nmm] == child_it.heap_range());
                assert(ranges_disjoint(child_it.all_ranges()[nvm + nmm], crg));
            }
        };
        lemma_owned_mapped(child_it, v);
    };
    assert(child.wf_core(crg)) by {
        assert forall|i2: int|
            0 <= i2 < child.vm_areas@.len() implies (#[trigger] child.vm_areas@[i2]).mapped_in(
            child.page_table,
        ) by {
            let ar = child_it.vm_areas@[i2];
            assert(child.vm_areas@[i2] == ar);
            assert(ar.mapped_in(child_it.page_table));
            assert forall|k2: int|
                0 <= k2 < ar.vpn_range.spec_len() implies child.pt().dom().contains(
                #[trigger] vpn_at(ar.vpn_range, k2),
            ) && child.pt()[vpn_at(ar.vpn_range, k2)] == child_it.pt()[vpn_at(
                ar.vpn_range,
                k2,
            )] by {
                let v = vpn_at(ar.vpn_range, k2);
                assert(ar.vpn_range.spec_contains(v));
                assert(child_it.all_ranges()[i2] == ar.vpn_range);
                assert(ranges_disjoint(child_it.all_ranges()[i2], crg));
                assert(!crg.spec_contains(v));
                assert(!touched.contains(v));
            };
        };
        assert forall|j2: int|
            0 <= j2 < child.mmap_areas@.len() implies (#[trigger] child.mmap_areas@[j2]).mapped_in(
            child.page_table,
        ) by {
            let ch = child_it.mmap_areas@[j2];
            assert(child.mmap_areas@[j2] == ch);
            assert(ch.mapped_in(child_it.page_table));
            assert forall|k2: int|
                0 <= k2 < ch.vpn_table@.len() implies child.pt().dom().contains(
                #[trigger] ch.vpn_table@[k2],
            ) && child.pt()[ch.vpn_table@[k2]] == child_it.pt()[ch.vpn_table@[k2]] by {
                let v = ch.vpn_table@[k2];
                assert(ch.vpn_range.spec_contains(v));
                assert(child_it.all_ranges()[nvm + j2] == ch.vpn_range);
                assert(ranges_disjoint(child_it.all_ranges()[nvm + j2], crg));
                assert(!crg.spec_contains(v));
                assert(!touched.contains(v));
            };
        };
        assert(child.heap_areas.mapped_in(child.page_table)) by {
            let ch = child_it.heap_areas;
            assert(ch.mapped_in(child_it.page_table));
            assert forall|k2: int|
                0 <= k2 < ch.vpn_table@.len() implies child.pt().dom().contains(
                #[trigger] ch.vpn_table@[k2],
            ) && child.pt()[ch.vpn_table@[k2]] == child_it.pt()[ch.vpn_table@[k2]] by {
                let v = ch.vpn_table@[k2];
                assert(child_it.heap_range().spec_contains(v));
                assert(child_it.all_ranges()[nvm + nmm] == child_it.heap_range());
                assert(ranges_disjoint(child_it.all_ranges()[nvm + nmm], crg));
                assert(!crg.spec_contains(v));
                assert(!touched.contains(v));
            };
        };
        assert forall|i2: int, j2: int|
            0 <= i2 < j2 < child.all_ranges().len() implies ranges_disjoint(
            #[trigger] child.all_ranges()[i2],
            #[trigger] child.all_ranges()[j2],
        ) by {
            assert(child.all_ranges()[i2] == child_it.all_ranges()[i2]);
            assert(child.all_ranges()[j2] == child_it.all_ranges()[j2]);
            assert(ranges_disjoint(child_it.all_ranges()[i2], child_it.all_ranges()[j2]));
        };
        assert forall|v: VirtPageNum|
            child.pt().dom().contains(v) && (#[trigger] child.pt()[v]).flags.cow
                implies child.owned_vpn(v) || crg.spec_contains(v) by {
            if !touched.contains(v) {
                assert(child.pt()[v] == child_it.pt()[v]);
                assert(child_it.owned_vpn(v));
                assert(child.owned_vpn(v)) by {
                    lemma_owned_grows_vm(child_it, child, v);
                };
            }
        };
        assert forall|v1: VirtPageNum, v2: VirtPageNum|
            child.owned_vpn(v1) && child.owned_vpn(v2) && v1 != v2 implies (
        #[trigger] child.pt()[v1]).ppn != (#[trigger] child.pt()[v2]).ppn by {
            assert(child_it.owned_vpn(v1) && child_it.owned_vpn(v2));
            assert(child.pt()[v1] == child_it.pt()[v1]);
            assert(child.pt()[v2] == child_it.pt()[v2]);
        };
        assert forall|j2: int, v: VirtPageNum|
            0 <= j2 < child.page_table.node_ppns().len() && child.owned_vpn(v) implies (
        #[trigger] child.page_table.node_ppns()[j2]) != (#[trigger] child.pt()[v]).ppn by {
            assert(child_it.owned_vpn(v));
            assert(child.pt()[v] == child_it.pt()[v]);
            if j2 < child_it.page_table.node_ppns().len() {
                assert(child.page_table.node_ppns()[j2] == child_it.page_table.node_ppns()[j2]);
            } else {
                assert(!a_it.has_ref(child.page_table.node_ppns()[j2]));
                lemma_child_owned_counts(child_it, a_it, v);
            }
        };
    };
    assert(child.counts_held(a)) by {
        assert forall|i2: int|
            0 <= i2 < child.vm_areas@.len() implies (#[trigger] child.vm_areas@[i2]).counts_held(
            a,
        ) by {
            assert(child_it.vm_areas@[i2].counts_held(a_it));
            assert(child.vm_areas@[i2] == child_it.vm_areas@[i2]);
            assert forall|k2: int|
                0 <= k2 < child.vm_areas@[i2].data_frames@.len() implies a.count(
                (#[trigger] child.vm_areas@[i2].data_frames@[k2]).ppn,
            ) >= 1 && a.manages(child.vm_areas@[i2].data_frames@[k2].ppn) by {
                assert(a.count(child.vm_areas@[i2].data_frames@[k2].ppn) >= a_it.count(
                    child.vm_areas@[i2].data_frames@[k2].ppn,
                ));
            };
        };
        assert forall|j2: int|
            0 <= j2 < child.mmap_areas@.len() implies (#[trigger] child.mmap_areas@[j2]).counts_held(
            a,
        ) by {
            assert(child_it.mmap_areas@[j2].counts_held(a_it));
            assert(child.mmap_areas@[j2] == child_it.mmap_areas@[j2]);
            assert forall|k2: int|
                0 <= k2 < child.mmap_areas@[j2].data_frames@.len() implies a.count(
                (#[trigger] child.mmap_areas@[j2].data_frames@[k2]).ppn,
            ) >= 1 && a.manages(child.mmap_areas@[j2].data_frames@[k2].ppn) by {
                assert(a.count(child.mmap_areas@[j2].data_frames@[k2].ppn) >= a_it.count(
                    child.mmap_areas@[j2].data_frames@[k2].ppn,
                ));
            };
        };
        assert(child.heap_areas.counts_held(a)) by {
            assert(child_it.heap_areas.counts_held(a_it));
            assert forall|k2: int|
                0 <= k2 < child.heap_areas.data_frames@.len() implies a.count(
                (#[trigger] child.heap_areas.data_frames@[k2]).ppn,
            ) >= 1 && a.manages(child.heap_areas.data_frames@[k2].ppn) by {
                assert(a.count(child.heap_areas.data_frames@[k2].ppn) >= a_it.count(
                    child.heap_areas.data_frames@[k2].ppn,
                ));
            };
        };
        assert forall|j2: int|
            0 <= j2 < child.page_table.node_ppns().len() implies a.count(
            #[trigger] child.page_table.node_ppns()[j2],
        ) >= 1 && a.manages(child.page_table.node_ppns()[j2]) by {
            if j2 < child_it.page_table.node_ppns().len() {
                assert(child.page_table.node_ppns()[j2] == child_it.page_table.node_ppns()[j2]);
                assert(a_it.count(child_it.page_table.node_ppns()[j2]) >= 1);
                assert(a.count(child_it.page_table.node_ppns()[j2]) >= a_it.count(
                    child_it.page_table.node_ppns()[j2],
                ));
            }
        };
    };
}

/// After a fork marked every owned non-trap page copy-on-write and
/// read-only in the parent, the parent is still well-formed and all its
/// frames are live.
#[verifier::spinoff_prover]
proof fn lemma_parent_wf_after_fork(
    m0: MemorySet,
    a0: StackFrameAllocator,
    parent: MemorySet,
    cpt: PageTable,
    a: StackFrameAllocator,
    shared: Set<VirtPageNum>,
)
    requires
        m0.wf(),
        m0.counts_held(a0),
        a0.wf(),
        fork_mid(m0, a0, parent, cpt, a, shared),
        forall|v: VirtPageNum| #[trigger] shared.contains(v) ==> m0.owned_vpn(v),
    ensures
        parent.wf(),
        parent.counts_held(a),
{
    assert(parent.all_ranges() =~= m0.all_ranges());
    assert forall|v: VirtPageNum|
        m0.pt().dom().contains(v) implies #[trigger] parent.pt().dom().contains(v) by {};
    assert forall|i: int|
        0 <= i < parent.vm_areas@.len() implies (#[trigger] parent.vm_areas@[i]).mapped_in(
        parent.page_table,
    ) && parent.vm_areas@[i].counts_held(a) by {
        let ar = m0.vm_areas@[i];
        assert(parent.vm_areas@[i] == ar);
        assert(ar.mapped_in(m0.page_table));
        assert forall|k: int|
            0 <= k < ar.vpn_range.spec_len() implies parent.pt().dom().contains(
            #[trigger] vpn_at(ar.vpn_range, k),
        ) && parent.pt()[vpn_at(ar.vpn_range, k)].ppn == m0.pt()[vpn_at(ar.vpn_range, k)].ppn by {};
        if ar.map_type is Framed {
            assert forall|k: int|
                0 <= k < ar.data_frames@.len() implies a.count(
                (#[trigger] ar.data_frames@[k]).ppn,
            ) >= 1 && a.manages(ar.data_frames@[k].ppn) by {
                assert(a0.count(ar.data_frames@[k].ppn) >= 1);
                assert(a.count(ar.data_frames@[k].ppn) >= a0.count(ar.data_frames@[k].ppn));
            };
        }
    };
    assert forall|i: int|
        0 <= i < parent.mmap_areas@.len() implies (#[trigger] parent.mmap_areas@[i]).mapped_in(
        parent.page_table,
    ) && parent.mmap_areas@[i].counts_held(a) by {
        let ch = m0.mmap_areas@[i];
        assert(parent.mmap_areas@[i] == ch);
        assert(ch.mapped_in(m0.page_table));
        assert forall|k: int|
            0 <= k < ch.vpn_table@.len() implies parent.pt().dom().contains(
            #[trigger] ch.vpn_table@[k],
        ) && parent.pt()[ch.vpn_table@[k]].ppn == m0.pt()[ch.vpn_table@[k]].ppn && a.count(
            ch.data_frames@[k].ppn,
        ) >= 1 && a.manages(ch.data_frames@[k].ppn) by {
            assert(a0.count(ch.data_frames@[k].ppn) >= 1);
            assert(a.count(ch.data_frames@[k].ppn) >= a0.count(ch.data_frames@[k].ppn));
        };
        assert forall|k: int| 0 <= k < ch.data_frames@.len() implies a.count(
            (#[trigger] ch.data_frames@[k]).ppn,
        ) >= 1 && a.manages(ch.data_frames@[k].ppn) by {
            assert(parent.pt().dom().contains(ch.vpn_table@[k]));
        };
    };
    assert(parent.heap_areas.mapped_in(parent.page_table) && parent.heap_areas.counts_held(a)) by {
        let ch = m0.heap_areas;
        assert(ch.mapped_in(m0.page_table));
        assert forall|k: int|
            0 <= k < ch.vpn_table@.len() implies parent.pt().dom().contains(
            #[trigger] ch.vpn_table@[k],
        ) && parent.pt()[ch.vpn_table@[k]].ppn == m0.pt()[ch.vpn_table@[k]].ppn && a.count(
            ch.data_frames@[k].ppn,
        ) >= 1 && a.manages(ch.data_frames@[k].ppn) by {
            assert(a0.count(ch.data_frames@[k].ppn) >= 1);
            assert(a.count(ch.data_frames@[k].ppn) >= a0.count(ch.data_frames@[k].ppn));
        };
        assert forall|k: int| 0 <= k < ch.data_frames@.len() implies a.count(
            (#[trigger] ch.data_frames@[k]).ppn,
        ) >= 1 && a.manages(ch.data_frames@[k].ppn) by {
            assert(parent.pt().dom().contains(ch.vpn_table@[k]));
        };
    };
    assert forall|i: int, j: int| 0 <= i < j < parent.all_ranges().len() implies ranges_disjoint(
        #[trigger] parent.all_ranges()[i],
        #[trigger] parent.all_ranges()[j],
    ) by {
        assert(ranges_disjoint(m0.all_ranges()[i], m0.all_ranges()[j]));
    };
    assert forall|v: VirtPageNum|
        parent.pt().dom().contains(v) && (#[trigger] parent.pt()[v]).flags.cow implies parent.owned_vpn(
        v,
    ) by {
        if shared.contains(v) {
            assert(m0.owned_vpn(v));
        } else {
            assert(parent.pt()[v] == m0.pt()[v]);
            assert(m0.owned_vpn(v));
        }
        assert(parent.owned_vpn(v)) by {
            lemma_owned_grows_vm(m0, parent, v);
        };
    };
    assert forall|v: VirtPageNum| #[trigger] parent.owned_vpn(v) implies m0.owned_vpn(v)
        && m0.pt().dom().contains(v) by {
        lemma_owned_grows_vm(parent, m0, v);
        lemma_owned_mapped(m0, v);
    };
    assert forall|v1: VirtPageNum, v2: VirtPageNum|
        parent.owned_vpn(v1) && parent.owned_vpn(v2) && v1 != v2 implies (
    #[trigger] parent.pt()[v1]).ppn != (#[trigger] parent.pt()[v2]).ppn by {
        assert(m0.owned_vpn(v1) && m0.owned_vpn(v2));
    };
    assert forall|j: int, v: VirtPageNum|
        0 <= j < parent.page_table.node_ppns().len() && parent.owned_vpn(v) implies (
    #[trigger] parent.page_table.node_ppns()[j]) != (#[trigger] parent.pt()[v]).ppn by {
        assert(m0.owned_vpn(v));
        assert(m0.page_table.node_ppns()[j] != m0.pt()[v].ppn);
    };
    assert forall|j: int|
        0 <= j < parent.page_table.node_ppns().len() implies a.count(
        #[trigger] parent.page_table.node_ppns()[j],
    ) >= 1 && a.manages(parent.page_table.node_ppns()[j]) by {
        assert(a0.count(m0.page_table.node_ppns()[j]) >= 1);
        assert(a.count(m0.page_table.node_ppns()[j]) >= a0.count(m0.page_table.node_ppns()[j]));
    };
}

/// A page no declared range holds is owned by no region.
proof fn lemma_owned_not_at(m: MemorySet, v: VirtPageNum, tv: VirtPageNum)
    requires
        m.wf(),
        m.owned_vpn(v),
        forall|i: int|
            0 <= i < m.all_ranges().len() ==> !(#[trigger] m.all_ranges()[i]).spec_contains(tv),
    ensures
        v != tv,
{
    if exists|i: int|
        0 <= i < m.vm_areas@.len() && (#[trigger] m.vm_areas@[i]).map_type is Framed
            && m.vm_areas@[i].vpn_range.spec_contains(v) {
        let i = choose|i: int|
            0 <= i < m.vm_areas@.len() && (#[trigger] m.vm_areas@[i]).map_type is Framed
                && m.vm_areas@[i].vpn_range.spec_contains(v);
        assert(m.all_ranges()[i] == m.vm_areas@[i].vpn_range);
    } else if exists|i: int|
        0 <= i < m.mmap_areas@.len() && (#[trigger] m.mmap_areas@[i]).resident(v) {
        let i = choose|i: int|
            0 <= i < m.mmap_areas@.len() && (#[trigger] m.mmap_areas@[i]).resident(v);
        assert(m.all_ranges()[m.vm_areas@.len() + i] == m.mmap_areas@[i].vpn_range);
        let k = choose|k: int|
            0 <= k < m.mmap_areas@[i].vpn_table@.len() && m.mmap_areas@[i].vpn_table@[k] == v;
        assert(m.mmap_areas@[i].mapped_in(m.page_table));
        assert(m.mmap_areas@[i].vpn_range.spec_contains(v));
    } else {
        assert(m.heap_areas.resident(v));
        assert(m.all_ranges()[m.all_ranges().len() - 1] == m.heap_range());
        let k = choose|k: int|
            0 <= k < m.heap_areas.vpn_table@.len() && m.heap_areas.vpn_table@[k] == v;
        assert(m.heap_areas.mapped_in(m.page_table));
        assert(m.heap_range().spec_contains(v));
    }
}

/// An owned page is mapped.
proof fn lemma_owned_mapped(m: MemorySet, v: VirtPageNum)
    requires
        m.wf(),
        m.owned_vpn(v),
    ensures
        m.pt().dom().contains(v),
{
    if exists|i: int|
        0 <= i < m.vm_areas@.len() && (#[trigger] m.vm_areas@[i]).map_type is Framed
            && m.vm_areas@[i].vpn_range.spec_contains(v) {
        let i = choose|i: int|
            0 <= i < m.vm_areas@.len() && (#[trigger] m.vm_areas@[i]).map_type is Framed
                && m.vm_areas@[i].vpn_range.spec_contains(v);
        let ar = m.vm_areas@[i];
        let k = v.0 - ar.vpn_range.start.0;
        assert(vpn_at(ar.vpn_range, k as int) == v);
    } else if exists|i: int|
        0 <= i < m.mmap_areas@.len() && (#[trigger] m.mmap_areas@[i]).resident(v) {
        let i = choose|i: int|
            0 <= i < m.mmap_areas@.len() && (#[trigger] m.mmap_areas@[i]).resident(v);
        let k = choose|k: int|
            0 <= k < m.mmap_areas@[i].vpn_table@.len() && m.mmap_areas@[i].vpn_table@[k] == v;
    } else {
        let k = choose|k: int|
            0 <= k < m.heap_areas.vpn_table@.len() && m.heap_areas.vpn_table@[k] == v;
    }
}

/// A page owned before is still owned after a chunk only gained pages.
proof fn lemma_owned_grows(m1: MemorySet, m2: MemorySet, ci: int, v: VirtPageNum)
    requires
        m1.owned_vpn(v),
        m2.vm_areas == m1.vm_areas,
        0 <= ci <= m1.mmap_areas@.len(),
        ci < m1.mmap_areas@.len() ==> m2.heap_areas == m1.heap_areas
            && m2.mmap_areas@.len() == m1.mmap_areas@.len() && (forall|i: int|
            0 <= i < m1.mmap_areas@.len() && i != ci ==> #[trigger] m2.mmap_areas@[i]
                == m1.mmap_areas@[i]) && m1.mmap_areas@[ci].vpn_table@.len()
            <= m2.mmap_areas@[ci].vpn_table@.len() && (forall|k: int|
            0 <= k < m1.mmap_areas@[ci].vpn_table@.len() ==> #[trigger] m2.mmap_areas@[ci].vpn_table@[k]
                == m1.mmap_areas@[ci].vpn_table@[k]),
        ci == m1.mmap_areas@.len() ==> m2.mmap_areas == m1.mmap_areas
            && m1.heap_areas.vpn_table@.len() <= m2.heap_areas.vpn_table@.len() && (forall|k: int|
            0 <= k < m1.heap_areas.vpn_table@.len() ==> #[trigger] m2.heap_areas.vpn_table@[k]
                == m1.heap_areas.vpn_table@[k]),
    ensures
        m2.owned_vpn(v),
{
    if exists|i: int|
        0 <= i < m1.vm_areas@.len() && (#[trigger] m1.vm_areas@[i]).map_type is Framed
            && m1.vm_areas@[i].vpn_range.spec_contains(v) {
        let i = choose|i: int|
            0 <= i < m1.vm_areas@.len() && (#[trigger] m1.vm_areas@[i]).map_type is Framed
                && m1.vm_areas@[i].vpn_range.spec_contains(v);
        assert(m2.vm_areas@[i] == m1.vm_areas@[i]);
        assert(0 <= i < m2.vm_areas@.len() && (#[trigger] m2.vm_areas@[i]).map_type is Framed
            && m2.vm_areas@[i].vpn_range.spec_contains(v));
    } else if exists|i: int|
        0 <= i < m1.mmap_areas@.len() && (#[trigger] m1.mmap_areas@[i]).resident(v) {
        let i = choose|i: int|
            0 <= i < m1.mmap_areas@.len() && (#[trigger] m1.mmap_areas@[i]).resident(v);
        let k = choose|k: int|
            0 <= k < m1.mmap_areas@[i].vpn_table@.len() && m1.mmap_areas@[i].vpn_table@[k] == v;
        assert(m2.mmap_areas@[i].vpn_table@[k] == v);
        assert(0 <= i < m2.mmap_areas@.len() && (#[trigger] m2.mmap_areas@[i]).resident(v));
    } else {
        let k = choose|k: int|
            0 <= k < m1.heap_areas.vpn_table@.len() && m1.heap_areas.vpn_table@[k] == v;
        assert(m2.heap_areas.vpn_table@[k] == v);
        assert(m2.heap_areas.resident(v));
    }
}


/// The frame behind an owned page is live in the allocator.
proof fn lemma_owned_count(m: MemorySet, a: StackFrameAllocator, v: VirtPageNum)
    requires
        m.wf(),
        m.counts_held(a),
        m.owned_vpn(v),
    ensures
        m.pt().dom().contains(v),
        a.count(m.pt()[v].ppn) >= 1,
        a.manages(m.pt()[v].ppn),
{
    if exists|i: int|
        0 <= i < m.vm_areas@.len() && (#[trigger] m.vm_areas@[i]).map_type is Framed
            && m.vm_areas@[i].vpn_range.spec_contains(v) {
        let i = choose|i: int|
            0 <= i < m.vm_areas@.len() && (#[trigger] m.vm_areas@[i]).map_type is Framed
                && m.vm_areas@[i].vpn_range.spec_contains(v);
        let ar = m.vm_areas@[i];
        let k = v.0 - ar.vpn_range.start.0;
        assert(vpn_at(ar.vpn_range, k as int) == v);
        assert(m.pt()[v].ppn == ar.data_frames@[k as int].ppn);
        assert(a.count(ar.data_frames@[k as int].ppn) >= 1);
    } else if exists|i: int|
        0 <= i < m.mmap_areas@.len() && (#[trigger] m.mmap_areas@[i]).resident(v) {
        let i = choose|i: int|
            0 <= i < m.mmap_areas@.len() && (#[trigger] m.mmap_areas@[i]).resident(v);
        let ch = m.mmap_areas@[i];
        let k = choose|k: int| 0 <= k < ch.vpn_table@.len() && ch.vpn_table@[k] == v;
        assert(m.pt()[v].ppn == ch.data_frames@[k].ppn);
        assert(a.count(ch.data_frames@[k].ppn) >= 1);
    } else {
        let ch = m.heap_areas;
        assert(ch.resident(v));
        let k = choose|k: int| 0 <= k < ch.vpn_table@.len() && ch.vpn_table@[k] == v;
        assert(m.pt()[v].ppn == ch.data_frames@[k].ppn);
        assert(a.count(ch.data_frames@[k].ppn) >= 1);
    }
}

/// Changing only the flags of one mapped entry, without setting its
/// copy-on-write mark, keeps an address space well-formed.
proof fn lemma_wf_flags_change(m1: MemorySet, m2: MemorySet, vpn: VirtPageNum)
    requires
        m1.wf(),
        m2.vm_areas == m1.vm_areas,
        m2.mmap_areas == m1.mmap_areas,
        m2.heap_areas == m1.heap_areas,
        m2.brk == m1.brk && m2.brk_start == m1.brk_start,
        m2.page_table.wf(),
        m2.page_table.node_ppns() == m1.page_table.node_ppns(),
        m1.pt().dom().contains(vpn),
        m2.pt().dom() == m1.pt().dom(),
        m2.pt()[vpn].ppn == m1.pt()[vpn].ppn,
        !m2.pt()[vpn].flags.cow,
        forall|v: VirtPageNum|
            v != vpn && m1.pt().dom().contains(v) ==> #[trigger] m2.pt()[v] == m1.pt()[v],
    ensures
        m2.wf(),
{
    assert(m2.all_ranges() =~= m1.all_ranges());
    assert forall|v: VirtPageNum| m1.pt().dom().contains(v) implies (#[trigger] m2.pt()[v]).ppn
        == m1.pt()[v].ppn by {};
    assert forall|i: int|
        0 <= i < m2.vm_areas@.len() implies (#[trigger] m2.vm_areas@[i]).mapped_in(
        m2.page_table,
    ) by {
        let ar = m1.vm_areas@[i];
        assert(ar.mapped_in(m1.page_table));
        assert forall|k: int|
            0 <= k < ar.vpn_range.spec_len() implies m2.pt().dom().contains(
            #[trigger] vpn_at(ar.vpn_range, k),
        ) && m2.pt()[vpn_at(ar.vpn_range, k)].ppn == m1.pt()[vpn_at(ar.vpn_range, k)].ppn by {};
    };
    assert forall|i: int|
        0 <= i < m2.mmap_areas@.len() implies (#[trigger] m2.mmap_areas@[i]).mapped_in(
        m2.page_table,
    ) by {
        let ch = m1.mmap_areas@[i];
        assert(ch.mapped_in(m1.page_table));
        assert forall|k: int|
            0 <= k < ch.vpn_table@.len() implies m2.pt().dom().contains(#[trigger] ch.vpn_table@[k])
                && m2.pt()[ch.vpn_table@[k]].ppn == m1.pt()[ch.vpn_table@[k]].ppn by {};
    };
    assert(m2.heap_areas.mapped_in(m2.page_table)) by {
        let ch = m1.heap_areas;
        assert(ch.mapped_in(m1.page_table));
        assert forall|k: int|
            0 <= k < ch.vpn_table@.len() implies m2.pt().dom().contains(#[trigger] ch.vpn_table@[k])
                && m2.pt()[ch.vpn_table@[k]].ppn == m1.pt()[ch.vpn_table@[k]].ppn by {};
    };
    assert forall|i: int, j: int| 0 <= i < j < m2.all_ranges().len() implies ranges_disjoint(
        #[trigger] m2.all_ranges()[i],
        #[trigger] m2.all_ranges()[j],
    ) by {
        assert(ranges_disjoint(m1.all_ranges()[i], m1.all_ranges()[j]));
    };
    assert forall|v: VirtPageNum|
        m2.pt().dom().contains(v) && (#[trigger] m2.pt()[v]).flags.cow implies m2.owned_vpn(v) by {
        assert(v != vpn);
        assert(m1.pt()[v].flags.cow);
        assert(m1.owned_vpn(v));
    };
    assert forall|v1: VirtPageNum, v2: VirtPageNum|
        m2.owned_vpn(v1) && m2.owned_vpn(v2) && v1 != v2 implies (#[trigger] m2.pt()[v1]).ppn != (
    #[trigger] m2.pt()[v2]).ppn by {
        assert(m1.owned_vpn(v1));
        assert(m1.owned_vpn(v2));
        assert(m1.pt().dom().contains(v1) && m1.pt().dom().contains(v2)) by {
            lemma_owned_mapped(m1, v1);
            lemma_owned_mapped(m1, v2);
        };
    };
    assert forall|j: int, v: VirtPageNum|
        0 <= j < m2.page_table.node_ppns().len() && m2.owned_vpn(v) implies (
    #[trigger] m2.page_table.node_ppns()[j]) != (#[trigger] m2.pt()[v]).ppn by {
        assert(m1.owned_vpn(v));
        lemma_owned_mapped(m1, v);
    };
}

/// A copy-on-write page inside a contiguous region's range is owned by
/// that very region, at the offset of the page in its range.
proof fn lemma_cow_owner_is_vm(m: MemorySet, vpn: VirtPageNum, i: int)
    requires
        m.wf(),
        m.pt().dom().contains(vpn),
        m.pt()[vpn].flags.cow,
        0 <= i < m.vm_areas@.len(),
        m.vm_areas@[i].vpn_range.spec_contains(vpn),
    ensures
        m.vm_areas@[i].map_type is Framed,
        0 <= vpn.0 - m.vm_areas@[i].vpn_range.start.0 < m.vm_areas@[i].data_frames@.len(),
        m.vm_areas@[i].data_frames@[vpn.0 - m.vm_areas@[i].vpn_range.start.0].ppn
            == m.pt()[vpn].ppn,
{
    assert(m.owned_vpn(vpn));
    if exists|j: int|
        0 <= j < m.vm_areas@.len() && (#[trigger] m.vm_areas@[j]).map_type is Framed
            && m.vm_areas@[j].vpn_range.spec_contains(vpn) {
        let j = choose|j: int|
            0 <= j < m.vm_areas@.len() && (#[trigger] m.vm_areas@[j]).map_type is Framed
                && m.vm_areas@[j].vpn_range.spec_contains(vpn);
        if j != i {
            assert(ranges_disjoint(m.all_ranges()[if i < j { i } else { j }],
                m.all_ranges()[if i < j { j } else { i }]));
            assert(false);
        }
    } else if exists|j: int|
        0 <= j < m.mmap_areas@.len() && (#[trigger] m.mmap_areas@[j]).resident(vpn) {
        let j = choose|j: int|
            0 <= j < m.mmap_areas@.len() && (#[trigger] m.mmap_areas@[j]).resident(vpn);
        assert(m.mmap_areas@[j].vpn_range.spec_contains(vpn));
        assert(ranges_disjoint(m.all_ranges()[i], m.all_ranges()[m.vm_areas@.len() + j]));
        assert(false);
    } else {
        assert(m.heap_areas.resident(vpn));
        assert(m.heap_areas.vpn_range.spec_contains(vpn));
        assert(ranges_disjoint(m.all_ranges()[i], m.all_ranges()[m.all_ranges().len() - 1]));
        assert(false);
    }
    let k = vpn.0 - m.vm_areas@[i].vpn_range.start.0;
    assert(vpn_at(m.vm_areas@[i].vpn_range, k as int) == vpn);
}

/// A copy-on-write page inside an mmap region's declared range, outside
/// every contiguous region, is a resident page of that very region.
proof fn lemma_cow_owner_is_chunk(m: MemorySet, vpn: VirtPageNum, j: int)
    requires
        m.wf(),
        m.pt().dom().contains(vpn),
        m.pt()[vpn].flags.cow,
        forall|i: int|
            0 <= i < m.vm_areas@.len() ==> !(#[trigger] m.vm_areas@[i]).vpn_range.spec_contains(
                vpn,
            ),
        0 <= j < m.mmap_areas@.len(),
        m.mmap_areas@[j].vpn_range.spec_contains(vpn),
    ensures
        m.mmap_areas@[j].resident(vpn),
        forall|k: int|
            0 <= k < m.mmap_areas@[j].vpn_table@.len() && (#[trigger] m.mmap_areas@[j].vpn_table@[k])
                == vpn ==> m.mmap_areas@[j].data_frames@[k].ppn == m.pt()[vpn].ppn,
{
    assert(m.owned_vpn(vpn));
    if exists|j2: int|
        0 <= j2 < m.mmap_areas@.len() && (#[trigger] m.mmap_areas@[j2]).resident(vpn) {
        let j2 = choose|j2: int|
            0 <= j2 < m.mmap_areas@.len() && (#[trigger] m.mmap_areas@[j2]).resident(vpn);
        if j2 != j {
            assert(m.mmap_areas@[j2].vpn_range.spec_contains(vpn));
            let nvm = m.vm_areas@.len() as int;
            assert(ranges_disjoint(m.all_ranges()[nvm + (if j < j2 { j } else { j2 })],
                m.all_ranges()[nvm + (if j < j2 { j2 } else { j })]));
            assert(false);
        }
    } else if m.heap_areas.resident(vpn) {
        assert(m.heap_areas.vpn_range.spec_contains(vpn));
        assert(ranges_disjoint(m.all_ranges()[m.vm_areas@.len() + j], m.all_ranges()[m.all_ranges().len() - 1]));
        assert(false);
    } else {
        assert(false);
    }
}

/// A copy-on-write page outside every contiguous and mmap region is a
/// resident heap page.
proof fn lemma_cow_owner_is_heap(m: MemorySet, vpn: VirtPageNum)
    requires
        m.wf(),
        m.pt().dom().contains(vpn),
        m.pt()[vpn].flags.cow,
        forall|i: int|
            0 <= i < m.vm_areas@.len() ==> !(#[trigger] m.vm_areas@[i]).vpn_range.spec_contains(
                vpn,
            ),
        forall|j: int|
            0 <= j < m.mmap_areas@.len() ==> !(#[trigger] m.mmap_areas@[j]).vpn_range.spec_contains(
                vpn,
            ),
    ensures
        m.heap_areas.resident(vpn),
        forall|k: int|
            0 <= k < m.heap_areas.vpn_table@.len() && (#[trigger] m.heap_areas.vpn_table@[k])
                == vpn ==> m.heap_areas.data_frames@[k].ppn == m.pt()[vpn].ppn,
{
    assert(m.owned_vpn(vpn));
    if exists|j2: int|
        0 <= j2 < m.mmap_areas@.len() && (#[trigger] m.mmap_areas@[j2]).resident(vpn) {
        let j2 = choose|j2: int|
            0 <= j2 < m.mmap_areas@.len() && (#[trigger] m.mmap_areas@[j2]).resident(vpn);
        assert(m.mmap_areas@[j2].vpn_range.spec_contains(vpn));
        assert(false);
    }
}

/// A page inside an identity-mapped region is owned by no region.
proof fn lemma_identical_page_not_owned(m: MemorySet, v: VirtPageNum, i: int)
    requires
        m.wf(),
        0 <= i < m.vm_areas@.len(),
        m.vm_areas@[i].map_type is Identical,
        m.vm_areas@[i].vpn_range.spec_contains(v),
    ensures
        !m.owned_vpn(v),
{
    if !m.owned_vpn(v) {
        return ;
    }
    if exists|j: int|
        0 <= j < m.vm_areas@.len() && (#[trigger] m.vm_areas@[j]).map_type is Framed
            && m.vm_areas@[j].vpn_range.spec_contains(v) {
        let j = choose|j: int|
            0 <= j < m.vm_areas@.len() && (#[trigger] m.vm_areas@[j]).map_type is Framed
                && m.vm_areas@[j].vpn_range.spec_contains(v);
        assert(j != i);
        assert(ranges_disjoint(m.all_ranges()[if i < j { i } else { j }],
            m.all_ranges()[if i < j { j } else { i }]));
    } else if exists|j: int|
        0 <= j < m.mmap_areas@.len() && (#[trigger] m.mmap_areas@[j]).resident(v) {
        let j = choose|j: int|
            0 <= j < m.mmap_areas@.len() && (#[trigger] m.mmap_areas@[j]).resident(v);
        assert(m.mmap_areas@[j].vpn_range.spec_contains(v));
        assert(ranges_disjoint(m.all_ranges()[i], m.all_ranges()[m.vm_areas@.len() + j]));
    } else {
        assert(m.heap_areas.resident(v));
        assert(m.heap_areas.vpn_range.spec_contains(v));
        assert(ranges_disjoint(m.all_ranges()[i], m.all_ranges()[m.all_ranges().len() - 1]));
    }
}

/// After one chunk (an mmap region when `ci < m1.mmap_areas@.len()`, the
/// heap otherwise) gains one fresh resident page, the space is again
/// well-formed and its frames are all live.
proof fn lemma_wf_after_chunk_page(
    m1: MemorySet,
    m2: MemorySet,
    a1: StackFrameAllocator,
    a2: StackFrameAllocator,
    ci: int,
    vpn: VirtPageNum,
)
    requires
        m1.wf(),
        m1.counts_held(a1),
        a1.wf(),
        a2.wf(),
        a2.spec_base() == a1.spec_base(),
        a2.spec_end() == a1.spec_end(),
        !m1.pt().dom().contains(vpn),
        0 <= ci <= m1.mmap_areas@.len(),
        ci < m1.mmap_areas@.len() ==> m1.mmap_areas@[ci].vpn_range.spec_contains(vpn),
        ci == m1.mmap_areas@.len() ==> m1.heap_areas.vpn_range.spec_contains(vpn),
        m2.vm_areas == m1.vm_areas,
        m2.brk == m1.brk && m2.brk_start == m1.brk_start,
        m2.page_table.wf(),
        ci < m1.mmap_areas@.len() ==> {
            &&& m2.heap_areas == m1.heap_areas
            &&& m2.mmap_areas@ == m1.mmap_areas@.update(ci, m2.mmap_areas@[ci])
            &&& m2.mmap_areas@[ci].vpn_range == m1.mmap_areas@[ci].vpn_range
            &&& m2.mmap_areas@[ci].map_type == m1.mmap_areas@[ci].map_type
            &&& m2.mmap_areas@[ci].map_perm == m1.mmap_areas@[ci].map_perm
            &&& m2.mmap_areas@[ci].mapped_in(m2.page_table)
            &&& m2.mmap_areas@[ci].frames_distinct()
            &&& m2.mmap_areas@[ci].counts_held(a2)
            &&& m2.mmap_areas@[ci].vpn_table@ == m1.mmap_areas@[ci].vpn_table@.push(vpn)
        },
        ci == m1.mmap_areas@.len() ==> {
            &&& m2.mmap_areas == m1.mmap_areas
            &&& m2.heap_areas.vpn_range == m1.heap_areas.vpn_range
            &&& m2.heap_areas.map_type == m1.heap_areas.map_type
            &&& m2.heap_areas.map_perm == m1.heap_areas.map_perm
            &&& m2.heap_areas.mapped_in(m2.page_table)
            &&& m2.heap_areas.frames_distinct()
            &&& m2.heap_areas.counts_held(a2)
            &&& m2.heap_areas.vpn_table@ == m1.heap_areas.vpn_table@.push(vpn)
        },
        m2.pt().dom().contains(vpn),
        !m2.pt()[vpn].flags.cow,
        !a1.has_ref(m2.pt()[vpn].ppn),
        a2.count(m2.pt()[vpn].ppn) == 1,
        forall|v: VirtPageNum|
            v != vpn ==> #[trigger] m2.pt().dom().contains(v) == m1.pt().dom().contains(v),
        forall|v: VirtPageNum|
            v != vpn && m1.pt().dom().contains(v) ==> #[trigger] m2.pt()[v] == m1.pt()[v],
        forall|p: PhysPageNum| a1.has_ref(p) ==> #[trigger] a2.count(p) == a1.count(p),
        m2.page_table.node_ppns().len() >= m1.page_table.node_ppns().len(),
        forall|j: int|
            0 <= j < m1.page_table.node_ppns().len() ==> #[trigger] m2.page_table.node_ppns()[j]
                == m1.page_table.node_ppns()[j],
        forall|j: int|
            m1.page_table.node_ppns().len() <= j < m2.page_table.node_ppns().len() ==> !a1.has_ref(
                #[trigger] m2.page_table.node_ppns()[j],
            ) && a2.count(m2.page_table.node_ppns()[j]) == 1 && a2.manages(
                m2.page_table.node_ppns()[j],
            ) && m2.page_table.node_ppns()[j] != m2.pt()[vpn].ppn,
    ensures
        m2.wf(),
        m2.counts_held(a2),
{
    let nvm = m1.vm_areas@.len() as int;
    assert(m2.all_ranges() =~= m1.all_ranges());
    let cr = if ci < m1.mmap_areas@.len() {
        m1.mmap_areas@[ci].vpn_range
    } else {
        m1.heap_areas.vpn_range
    };
    assert(cr.spec_contains(vpn));
    assert(m1.all_ranges()[nvm + ci] == cr);
    assert forall|i: int|
        0 <= i < m2.vm_areas@.len() implies (#[trigger] m2.vm_areas@[i]).mapped_in(m2.page_table)
            && m2.vm_areas@[i].counts_held(a2) by {
        let ar = m1.vm_areas@[i];
        assert(m2.vm_areas@[i] == ar);
        assert(ranges_disjoint(m1.all_ranges()[i], m1.all_ranges()[nvm + ci]));
        assert(ar.mapped_in(m1.page_table));
        assert forall|k: int|
            0 <= k < ar.vpn_range.spec_len() implies m2.pt().dom().contains(
            #[trigger] vpn_at(ar.vpn_range, k),
        ) && m2.pt()[vpn_at(ar.vpn_range, k)] == m1.pt()[vpn_at(ar.vpn_range, k)] by {
            assert(ar.vpn_range.spec_contains(vpn_at(ar.vpn_range, k)));
            assert(vpn_at(ar.vpn_range, k) != vpn);
        };
        if ar.map_type is Framed {
            assert forall|k: int|
                0 <= k < ar.data_frames@.len() implies a2.count(
                (#[trigger] ar.data_frames@[k]).ppn,
            ) >= 1 && a2.manages(ar.data_frames@[k].ppn) by {
                assert(a1.count(ar.data_frames@[k].ppn) >= 1);
            };
        }
    };
    assert forall|i: int|
        0 <= i < m2.mmap_areas@.len() && i != ci implies (#[trigger] m2.mmap_areas@[i]).mapped_in(
        m2.page_table,
    ) && m2.mmap_areas@[i].counts_held(a2) by {
        let ch = m1.mmap_areas@[i];
        assert(m2.mmap_areas@[i] == ch);
        assert(ranges_disjoint(m1.all_ranges()[if i < ci { nvm + i } else { nvm + ci }],
            m1.all_ranges()[if i < ci { nvm + ci } else { nvm + i }]));
        assert(ch.mapped_in(m1.page_table));
        assert forall|k: int|
            0 <= k < ch.vpn_table@.len() implies m2.pt().dom().contains(
            #[trigger] ch.vpn_table@[k],
        ) && m2.pt()[ch.vpn_table@[k]] == m1.pt()[ch.vpn_table@[k]] && a2.count(
            ch.data_frames@[k].ppn,
        ) >= 1 && a2.manages(ch.data_frames@[k].ppn) by {
            assert(ch.vpn_range.spec_contains(ch.vpn_table@[k]));
            assert(ch.vpn_table@[k] != vpn);
            assert(a1.count(ch.data_frames@[k].ppn) >= 1);
        };
        assert forall|k: int| 0 <= k < ch.data_frames@.len() implies a2.count(
            (#[trigger] ch.data_frames@[k]).ppn,
        ) >= 1 && a2.manages(ch.data_frames@[k].ppn) by {
            assert(m2.pt().dom().contains(ch.vpn_table@[k]));
        };
    };
    if ci < m1.mmap_areas@.len() {
        assert(m2.heap_areas.mapped_in(m2.page_table) && m2.heap_areas.counts_held(a2)) by {
            let ch = m1.heap_areas;
            assert(ranges_disjoint(m1.all_ranges()[nvm + ci], m1.all_ranges()[m1.all_ranges().len()
                - 1]));
            assert(ch.mapped_in(m1.page_table));
            assert forall|k: int|
                0 <= k < ch.vpn_table@.len() implies m2.pt().dom().contains(
                #[trigger] ch.vpn_table@[k],
            ) && m2.pt()[ch.vpn_table@[k]] == m1.pt()[ch.vpn_table@[k]] && a2.count(
                ch.data_frames@[k].ppn,
            ) >= 1 && a2.manages(ch.data_frames@[k].ppn) by {
                assert(ch.vpn_range.spec_contains(ch.vpn_table@[k]));
                assert(ch.vpn_table@[k] != vpn);
                assert(a1.count(ch.data_frames@[k].ppn) >= 1);
            };
            assert forall|k: int| 0 <= k < ch.data_frames@.len() implies a2.count(
                (#[trigger] ch.data_frames@[k]).ppn,
            ) >= 1 && a2.manages(ch.data_frames@[k].ppn) by {
                assert(m2.pt().dom().contains(ch.vpn_table@[k]));
            };
        };
    }
    assert forall|j: int|
        0 <= j < m2.page_table.node_ppns().len() implies a2.count(
        #[trigger] m2.page_table.node_ppns()[j],
    ) >= 1 && a2.manages(m2.page_table.node_ppns()[j]) by {
        if j < m1.page_table.node_ppns().len() {
            assert(a1.count(m1.page_table.node_ppns()[j]) >= 1);
        }
    };
    assert forall|v: VirtPageNum| #[trigger] m2.owned_vpn(v) && v != vpn implies m1.owned_vpn(
        v,
    ) by {
        if exists|i: int|
            0 <= i < m2.mmap_areas@.len() && (#[trigger] m2.mmap_areas@[i]).resident(v) {
            let i = choose|i: int|
                0 <= i < m2.mmap_areas@.len() && (#[trigger] m2.mmap_areas@[i]).resident(v);
            if i == ci && ci < m1.mmap_areas@.len() {
                let k = choose|k: int|
                    0 <= k < m2.mmap_areas@[ci].vpn_table@.len()
                        && m2.mmap_areas@[ci].vpn_table@[k] == v;
                assert(m1.mmap_areas@[ci].resident(v));
                assert(m1.owned_vpn(v)) by {
                    assert(0 <= ci < m1.mmap_areas@.len() && (#[trigger] m1.mmap_areas@[ci]).resident(
                        v,
                    ));
                };
            } else {
                assert(m1.mmap_areas@[i] == m2.mmap_areas@[i]);
                assert(m1.owned_vpn(v)) by {
                    assert(0 <= i < m1.mmap_areas@.len() && (#[trigger] m1.mmap_areas@[i]).resident(
                        v,
                    ));
                };
            }
        } else if m2.heap_areas.resident(v) {
            if ci == m1.mmap_areas@.len() {
                let k = choose|k: int|
                    0 <= k < m2.heap_areas.vpn_table@.len() && m2.heap_areas.vpn_table@[k] == v;
                assert(m1.heap_areas.resident(v));
            } else {
                assert(m1.heap_areas.resident(v));
            }
        } else {
            let i = choose|i: int|
                0 <= i < m2.vm_areas@.len() && (#[trigger] m2.vm_areas@[i]).map_type is Framed
                    && m2.vm_areas@[i].vpn_range.spec_contains(v);
            assert(m1.owned_vpn(v)) by {
                assert(0 <= i < m1.vm_areas@.len() && (#[trigger] m1.vm_areas@[i]).map_type is Framed
                    && m1.vm_areas@[i].vpn_range.spec_contains(v));
            };
        }
    };
    assert(m2.owned_vpn(vpn)) by {
        if ci < m1.mmap_areas@.len() {
            let k = m2.mmap_areas@[ci].vpn_table@.len() - 1;
            assert(m2.mmap_areas@[ci].vpn_table@[k] == vpn);
            assert(m2.mmap_areas@[ci].resident(vpn));
        } else {
            let k = m2.heap_areas.vpn_table@.len() - 1;
            assert(m2.heap_areas.vpn_table@[k] == vpn);
            assert(m2.heap_areas.resident(vpn));
        }
    };
    assert forall|v: VirtPageNum|
        m2.pt().dom().contains(v) && (#[trigger] m2.pt()[v]).flags.cow implies m2.owned_vpn(v) by {
        if v != vpn {
            assert(m2.pt()[v] == m1.pt()[v]);
            assert(m1.owned_vpn(v));
            lemma_owned_grows(m1, m2, ci, v);
        }
    };
    assert forall|v1: VirtPageNum, v2: VirtPageNum|
        m2.owned_vpn(v1) && m2.owned_vpn(v2) && v1 != v2 implies (#[trigger] m2.pt()[v1]).ppn != (
    #[trigger] m2.pt()[v2]).ppn by {
        if v1 != vpn && v2 != vpn {
            assert(m1.owned_vpn(v1) && m1.owned_vpn(v2));
            lemma_owned_count(m1, a1, v1);
            lemma_owned_count(m1, a1, v2);
            assert(m2.pt()[v1] == m1.pt()[v1]);
            assert(m2.pt()[v2] == m1.pt()[v2]);
        } else if v1 == vpn {
            assert(m1.owned_vpn(v2));
            lemma_owned_count(m1, a1, v2);
            assert(m2.pt()[v2] == m1.pt()[v2]);
            assert(!a1.has_ref(m2.pt()[vpn].ppn));
        } else {
            assert(m1.owned_vpn(v1));
            lemma_owned_count(m1, a1, v1);
            assert(m2.pt()[v1] == m1.pt()[v1]);
            assert(!a1.has_ref(m2.pt()[vpn].ppn));
        }
    };
    assert forall|j: int, v: VirtPageNum|
        0 <= j < m2.page_table.node_ppns().len() && m2.owned_vpn(v) implies (
    #[trigger] m2.page_table.node_ppns()[j]) != (#[trigger] m2.pt()[v]).ppn by {
        if v == vpn {
            if j < m1.page_table.node_ppns().len() {
                assert(a1.count(m1.page_table.node_ppns()[j]) >= 1);
                assert(!a1.has_ref(m2.pt()[vpn].ppn));
            }
        } else {
            assert(m1.owned_vpn(v));
            lemma_owned_count(m1, a1, v);
            assert(m2.pt()[v] == m1.pt()[v]);
            if j < m1.page_table.node_ppns().len() {
            } else {
                assert(!a1.has_ref(m2.page_table.node_ppns()[j]));
            }
        }
    };
}

/// A page of one region belongs to no other region: range containment
/// pins the owner uniquely.
proof fn lemma_vm_owner_excludes(m: MemorySet, vpn: VirtPageNum, i: int)
    requires
        m.wf(),
        0 <= i < m.vm_areas@.len(),
        m.vm_areas@[i].vpn_range.spec_contains(vpn),
    ensures
        forall|i2: int|
            0 <= i2 < m.vm_areas@.len() && i2 != i ==> !(#[trigger] m.vm_areas@[i2]).vpn_range.spec_contains(
                vpn,
            ),
        forall|j: int| 0 <= j < m.mmap_areas@.len() ==> !(#[trigger] m.mmap_areas@[j]).resident(vpn),
        !m.heap_areas.resident(vpn),
{
    assert forall|i2: int|
        0 <= i2 < m.vm_areas@.len() && i2 != i implies !(#[trigger] m.vm_areas@[i2]).vpn_range.spec_contains(
        vpn,
    ) by {
        assert(ranges_disjoint(m.all_ranges()[if i < i2 { i } else { i2 }],
            m.all_ranges()[if i < i2 { i2 } else { i }]));
    };
    assert forall|j: int|
        0 <= j < m.mmap_areas@.len() implies !(#[trigger] m.mmap_areas@[j]).resident(vpn) by {
        assert(ranges_disjoint(m.all_ranges()[i], m.all_ranges()[m.vm_areas@.len() + j]));
        if m.mmap_areas@[j].resident(vpn) {
            assert(m.mmap_areas@[j].vpn_range.spec_contains(vpn));
        }
    };
    assert(ranges_disjoint(m.all_ranges()[i], m.all_ranges()[m.all_ranges().len() - 1]));
    if m.heap_areas.resident(vpn) {
        assert(m.heap_areas.vpn_range.spec_contains(vpn));
    }
}

/// A resident page of one mmap region belongs to no other region.
proof fn lemma_mmap_owner_excludes(m: MemorySet, vpn: VirtPageNum, j: int)
    requires
        m.wf(),
        0 <= j < m.mmap_areas@.len(),
        m.mmap_areas@[j].vpn_range.spec_contains(vpn),
    ensures
        forall|i: int|
            0 <= i < m.vm_areas@.len() ==> !(#[trigger] m.vm_areas@[i]).vpn_range.spec_contains(
                vpn,
            ),
        forall|j2: int|
            0 <= j2 < m.mmap_areas@.len() && j2 != j ==> !(#[trigger] m.mmap_areas@[j2]).resident(
                vpn,
            ),
        !m.heap_areas.resident(vpn),
{
    let nvm = m.vm_areas@.len() as int;
    assert forall|i: int|
        0 <= i < m.vm_areas@.len() implies !(#[trigger] m.vm_areas@[i]).vpn_range.spec_contains(
        vpn,
    ) by {
        assert(ranges_disjoint(m.all_ranges()[i], m.all_ranges()[nvm + j]));
    };
    assert forall|j2: int|
        0 <= j2 < m.mmap_areas@.len() && j2 != j implies !(#[trigger] m.mmap_areas@[j2]).resident(
        vpn,
    ) by {
        assert(ranges_disjoint(m.all_ranges()[nvm + (if j < j2 { j } else { j2 })],
            m.all_ranges()[nvm + (if j < j2 { j2 } else { j })]));
        if m.mmap_areas@[j2].resident(vpn) {
            assert(m.mmap_areas@[j2].vpn_range.spec_contains(vpn));
        }
    };
    assert(ranges_disjoint(m.all_ranges()[nvm + j], m.all_ranges()[m.all_ranges().len() - 1]));
    if m.heap_areas.resident(vpn) {
        assert(m.heap_areas.vpn_range.spec_contains(vpn));
    }
}

/// A page of the heap belongs to no other region.
proof fn lemma_heap_owner_excludes(m: MemorySet, vpn: VirtPageNum)
    requires
        m.wf(),
        m.heap_areas.vpn_range.spec_contains(vpn),
    ensures
        forall|i: int|
            0 <= i < m.vm_areas@.len() ==> !(#[trigger] m.vm_areas@[i]).vpn_range.spec_contains(
                vpn,
            ),
        forall|j: int| 0 <= j < m.mmap_areas@.len() ==> !(#[trigger] m.mmap_areas@[j]).resident(vpn),
{
    let nvm = m.vm_areas@.len() as int;
    let last = m.all_ranges().len() - 1;
    assert forall|i: int|
        0 <= i < m.vm_areas@.len() implies !(#[trigger] m.vm_areas@[i]).vpn_range.spec_contains(
        vpn,
    ) by {
        assert(ranges_disjoint(m.all_ranges()[i], m.all_ranges()[last]));
    };
    assert forall|j: int|
        0 <= j < m.mmap_areas@.len() implies !(#[trigger] m.mmap_areas@[j]).resident(vpn) by {
        assert(ranges_disjoint(m.all_ranges()[nvm + j], m.all_ranges()[last]));
        if m.mmap_areas@[j].resident(vpn) {
            assert(m.mmap_areas@[j].vpn_range.spec_contains(vpn));
        }
    };
}

/// After a copy-on-write break swapped one region handle from the shared
/// frame to a fresh private one, the space is well-formed and its frames
/// are live.
#[verifier::rlimit(100)]
#[verifier::spinoff_prover]
proof fn lemma_wf_after_cow_swap(
    m1: MemorySet,
    m2: MemorySet,
    a1: StackFrameAllocator,
    a2: StackFrameAllocator,
    vpn: VirtPageNum,
    former: PhysPageNum,
    fresh: PhysPageNum,
)
    requires
        m1.wf(),
        m1.counts_held(a1),
        a1.wf(),
        a2.wf(),
        a2.spec_base() == a1.spec_base(),
        a2.spec_end() == a1.spec_end(),
        m1.pt().dom().contains(vpn),
        m1.pt()[vpn].ppn == former,
        m1.pt()[vpn].flags.cow,
        !a1.has_ref(fresh),
        a2.manages(fresh),
        a2.count(fresh) == 1,
        a2.count(former) == a1.count(former) - 1,
        forall|p: PhysPageNum|
            p != fresh && p != former ==> #[trigger] a2.count(p) == a1.count(p),
        m2.page_table.wf(),
        m2.page_table.node_ppns() == m1.page_table.node_ppns(),
        m2.pt().dom() == m1.pt().dom(),
        m2.pt()[vpn].ppn == fresh,
        !m2.pt()[vpn].flags.cow,
        forall|v: VirtPageNum|
            v != vpn && m1.pt().dom().contains(v) ==> #[trigger] m2.pt()[v] == m1.pt()[v],
        m2.brk == m1.brk && m2.brk_start == m1.brk_start,
        m2.vm_areas@.len() == m1.vm_areas@.len(),
        m2.mmap_areas@.len() == m1.mmap_areas@.len(),
        forall|i: int|
            0 <= i < m1.vm_areas@.len() ==> (#[trigger] m2.vm_areas@[i]).vpn_range
                == m1.vm_areas@[i].vpn_range && m2.vm_areas@[i].map_type == m1.vm_areas@[i].map_type
                && m2.vm_areas@[i].map_perm == m1.vm_areas@[i].map_perm
                && m2.vm_areas@[i].data_frames@.len() == m1.vm_areas@[i].data_frames@.len(),
        forall|i: int|
            0 <= i < m1.mmap_areas@.len() ==> (#[trigger] m2.mmap_areas@[i]).vpn_range
                == m1.mmap_areas@[i].vpn_range && m2.mmap_areas@[i].map_type
                == m1.mmap_areas@[i].map_type && m2.mmap_areas@[i].map_perm
                == m1.mmap_areas@[i].map_perm && m2.mmap_areas@[i].vpn_table
                == m1.mmap_areas@[i].vpn_table && m2.mmap_areas@[i].data_frames@.len()
                == m1.mmap_areas@[i].data_frames@.len(),
        m2.heap_areas.vpn_range == m1.heap_areas.vpn_range,
        m2.heap_areas.map_type == m1.heap_areas.map_type,
        m2.heap_areas.map_perm == m1.heap_areas.map_perm,
        m2.heap_areas.vpn_table == m1.heap_areas.vpn_table,
        m2.heap_areas.data_frames@.len() == m1.heap_areas.data_frames@.len(),
        forall|i: int, k: int|
            0 <= i < m1.vm_areas@.len() && 0 <= k < m1.vm_areas@[i].data_frames@.len() ==> (
            #[trigger] m2.vm_areas@[i].data_frames@[k]).ppn == m1.vm_areas@[i].data_frames@[k].ppn
                || (m2.vm_areas@[i].data_frames@[k].ppn == fresh
                && m1.vm_areas@[i].map_type is Framed
                && m1.vm_areas@[i].vpn_range.spec_contains(vpn) && k == vpn.0
                - m1.vm_areas@[i].vpn_range.start.0),
        forall|i: int, k: int|
            0 <= i < m1.mmap_areas@.len() && 0 <= k < m1.mmap_areas@[i].data_frames@.len() ==> (
            #[trigger] m2.mmap_areas@[i].data_frames@[k]).ppn
                == m1.mmap_areas@[i].data_frames@[k].ppn || (m2.mmap_areas@[i].data_frames@[k].ppn
                == fresh && m1.mmap_areas@[i].vpn_table@[k] == vpn),
        forall|k: int|
            0 <= k < m1.heap_areas.data_frames@.len() ==> (
            #[trigger] m2.heap_areas.data_frames@[k]).ppn == m1.heap_areas.data_frames@[k].ppn || (
            m2.heap_areas.data_frames@[k].ppn == fresh && m1.heap_areas.vpn_table@[k] == vpn),
        // and the owning slot did swap
        m2.pt()[vpn].ppn == fresh,
        forall|i: int|
            0 <= i < m1.vm_areas@.len() && (#[trigger] m1.vm_areas@[i]).map_type is Framed
                && m1.vm_areas@[i].vpn_range.spec_contains(vpn) ==> m2.vm_areas@[i].data_frames@[vpn.0
                - m1.vm_areas@[i].vpn_range.start.0].ppn == fresh,
        forall|i: int, k: int|
            0 <= i < m1.mmap_areas@.len() && 0 <= k < m1.mmap_areas@[i].vpn_table@.len() && (
            #[trigger] m1.mmap_areas@[i].vpn_table@[k]) == vpn
                ==> m2.mmap_areas@[i].data_frames@[k].ppn == fresh,
        forall|k: int|
            0 <= k < m1.heap_areas.vpn_table@.len() && (#[trigger] m1.heap_areas.vpn_table@[k])
                == vpn ==> m2.heap_areas.data_frames@[k].ppn == fresh,
    ensures
        m2.wf(),
        m2.counts_held(a2),
{
    assert(m2.all_ranges() =~= m1.all_ranges());
    assert(m1.owned_vpn(vpn));
    lemma_owned_count(m1, a1, vpn);
    assert forall|v: VirtPageNum| m1.owned_vpn(v) && v != vpn implies m1.pt().dom().contains(v) && (
    #[trigger] m1.pt()[v]).ppn != former && m1.pt()[v].ppn != fresh && a2.count(m1.pt()[v].ppn)
        == a1.count(m1.pt()[v].ppn) by {
        lemma_owned_count(m1, a1, v);
    };
    assert forall|i: int|
        0 <= i < m2.vm_areas@.len() implies (#[trigger] m2.vm_areas@[i]).mapped_in(m2.page_table)
            && m2.vm_areas@[i].counts_held(a2) && m2.vm_areas@[i].frames_distinct() by {
        let ar1 = m1.vm_areas@[i];
        let ar2 = m2.vm_areas@[i];
        assert(ar1.mapped_in(m1.page_table));
        if ar1.map_type is Framed {
            assert forall|k: int|
                0 <= k < ar2.vpn_range.spec_len() implies m2.pt().dom().contains(
                #[trigger] vpn_at(ar2.vpn_range, k),
            ) && m2.pt()[vpn_at(ar2.vpn_range, k)].ppn == ar2.data_frames@[k].ppn && a2.count(
                ar2.data_frames@[k].ppn,
            ) >= 1 && a2.manages(ar2.data_frames@[k].ppn) by {
                let v = vpn_at(ar1.vpn_range, k);
                assert(vpn_at(ar2.vpn_range, k) == v);
                assert(ar1.vpn_range.spec_contains(v));
                assert(m1.owned_vpn(v)) by {
                    assert(0 <= i < m1.vm_areas@.len() && (#[trigger] m1.vm_areas@[i]).map_type is Framed
                        && m1.vm_areas@[i].vpn_range.spec_contains(v));
                };
                if v == vpn {
                    assert(k == vpn.0 - ar1.vpn_range.start.0);
                    assert(ar2.data_frames@[k].ppn == fresh);
                } else {
                    assert(k != vpn.0 - ar1.vpn_range.start.0 || !ar1.vpn_range.spec_contains(vpn))
                        by {
                        if ar1.vpn_range.spec_contains(vpn) && k == vpn.0 - ar1.vpn_range.start.0 {
                            assert(vpn_at(ar1.vpn_range, k) == vpn);
                        }
                    };
                    assert(ar2.data_frames@[k].ppn == ar1.data_frames@[k].ppn);
                    assert(m2.pt()[v] == m1.pt()[v]);
                }
            };
            assert forall|k: int| 0 <= k < ar2.data_frames@.len() implies a2.count(
                (#[trigger] ar2.data_frames@[k]).ppn,
            ) >= 1 && a2.manages(ar2.data_frames@[k].ppn) by {
                assert(m2.pt().dom().contains(vpn_at(ar2.vpn_range, k)));
            };
            assert forall|k1: int, k2: int|
                0 <= k1 < k2 < ar2.data_frames@.len() implies (#[trigger] ar2.data_frames@[k1]).ppn
                    != (#[trigger] ar2.data_frames@[k2]).ppn by {
                let v1 = vpn_at(ar1.vpn_range, k1);
                let v2 = vpn_at(ar1.vpn_range, k2);
                assert(vpn_at(ar2.vpn_range, k1) == v1);
                assert(vpn_at(ar2.vpn_range, k2) == v2);
                assert(ar1.vpn_range.spec_contains(v1) && ar1.vpn_range.spec_contains(v2));
                assert(v1 != v2);
                assert(m2.pt()[v1].ppn == ar2.data_frames@[k1].ppn);
                assert(m2.pt()[v2].ppn == ar2.data_frames@[k2].ppn);
                assert(m1.owned_vpn(v1)) by {
                    assert(0 <= i < m1.vm_areas@.len() && (#[trigger] m1.vm_areas@[i]).map_type is Framed
                        && m1.vm_areas@[i].vpn_range.spec_contains(v1));
                };
                assert(m1.owned_vpn(v2)) by {
                    assert(0 <= i < m1.vm_areas@.len() && (#[trigger] m1.vm_areas@[i]).map_type is Framed
                        && m1.vm_areas@[i].vpn_range.spec_contains(v2));
                };
                if v1 != vpn && v2 != vpn {
                    assert(m1.pt()[v1].ppn != m1.pt()[v2].ppn);
                } else if v1 == vpn {
                    assert(ar2.data_frames@[k1].ppn == fresh);
                    assert(m1.pt()[v2].ppn != fresh);
                } else {
                    assert(ar2.data_frames@[k2].ppn == fresh);
                    assert(m1.pt()[v1].ppn != fresh);
                }
            };
        } else {
            assert(ar1.data_frames@.len() == 0);
            assert forall|k: int|
                0 <= k < ar2.vpn_range.spec_len() implies m2.pt().dom().contains(
                #[trigger] vpn_at(ar2.vpn_range, k),
            ) && m2.pt()[vpn_at(ar2.vpn_range, k)].ppn.0 == vpn_at(ar2.vpn_range, k).0 by {
                let v = vpn_at(ar1.vpn_range, k);
                assert(vpn_at(ar2.vpn_range, k) == v);
                if v == vpn {
                    assert(m1.owned_vpn(vpn));
                    lemma_identical_page_not_owned(m1, vpn, i);
                    assert(false);
                } else {
                    assert(m2.pt()[v] == m1.pt()[v]);
                }
            };
        }
    };
    assert forall|i: int|
        0 <= i < m2.mmap_areas@.len() implies (#[trigger] m2.mmap_areas@[i]).mapped_in(
        m2.page_table,
    ) && m2.mmap_areas@[i].counts_held(a2) && m2.mmap_areas@[i].frames_distinct() by {
        let ch1 = m1.mmap_areas@[i];
        let ch2 = m2.mmap_areas@[i];
        assert(ch1.mapped_in(m1.page_table));
        assert forall|k: int|
            0 <= k < ch1.vpn_table@.len() implies m2.pt().dom().contains(
            #[trigger] ch2.vpn_table@[k],
        ) && m2.pt()[ch2.vpn_table@[k]].ppn == ch2.data_frames@[k].ppn && a2.count(
            ch2.data_frames@[k].ppn,
        ) >= 1 && a2.manages(ch2.data_frames@[k].ppn) by {
            let v = ch1.vpn_table@[k];
            assert(ch2.vpn_table@[k] == v);
            assert(m1.owned_vpn(v)) by {
                assert(0 <= i < m1.mmap_areas@.len() && (#[trigger] m1.mmap_areas@[i]).resident(v));
            };
            if v == vpn {
                assert(ch2.data_frames@[k].ppn == fresh);
            } else {
                assert(ch2.data_frames@[k].ppn == ch1.data_frames@[k].ppn);
                assert(m2.pt()[v] == m1.pt()[v]);
            }
        };
        assert forall|k: int| 0 <= k < ch2.data_frames@.len() implies a2.count(
            (#[trigger] ch2.data_frames@[k]).ppn,
        ) >= 1 && a2.manages(ch2.data_frames@[k].ppn) by {
            assert(m2.pt().dom().contains(ch2.vpn_table@[k]));
        };
        assert forall|k1: int, k2: int|
            0 <= k1 < k2 < ch2.data_frames@.len() implies (#[trigger] ch2.data_frames@[k1]).ppn != (
        #[trigger] ch2.data_frames@[k2]).ppn by {
            let v1 = ch1.vpn_table@[k1];
            let v2 = ch1.vpn_table@[k2];
            assert(v1 != v2);
            assert(m2.pt()[v1].ppn == ch2.data_frames@[k1].ppn);
            assert(m2.pt()[v2].ppn == ch2.data_frames@[k2].ppn);
            assert(m1.owned_vpn(v1)) by {
                assert(0 <= i < m1.mmap_areas@.len() && (#[trigger] m1.mmap_areas@[i]).resident(v1));
            };
            assert(m1.owned_vpn(v2)) by {
                assert(0 <= i < m1.mmap_areas@.len() && (#[trigger] m1.mmap_areas@[i]).resident(v2));
            };
            if v1 != vpn && v2 != vpn {
                assert(m1.pt()[v1].ppn != m1.pt()[v2].ppn);
            } else if v1 == vpn {
                assert(m1.pt()[v2].ppn != fresh);
            } else {
                assert(m1.pt()[v1].ppn != fresh);
            }
        };
        assert(ch2.mapped_in(m2.page_table)) by {
            assert(forall|k: int|
                0 <= k < ch2.vpn_table@.len() ==> ch2.vpn_range.spec_contains(
                    #[trigger] ch2.vpn_table@[k],
                ));
        };
    };
    assert(m2.heap_areas.mapped_in(m2.page_table) && m2.heap_areas.counts_held(a2)
        && m2.heap_areas.frames_distinct()) by {
        let ch1 = m1.heap_areas;
        let ch2 = m2.heap_areas;
        assert(ch1.mapped_in(m1.page_table));
        assert forall|k: int|
            0 <= k < ch1.vpn_table@.len() implies m2.pt().dom().contains(
            #[trigger] ch2.vpn_table@[k],
        ) && m2.pt()[ch2.vpn_table@[k]].ppn == ch2.data_frames@[k].ppn && a2.count(
            ch2.data_frames@[k].ppn,
        ) >= 1 && a2.manages(ch2.data_frames@[k].ppn) by {
            let v = ch1.vpn_table@[k];
            assert(ch2.vpn_table@[k] == v);
            assert(m1.owned_vpn(v)) by {
                assert(m1.heap_areas.resident(v));
            };
            if v == vpn {
                assert(ch2.data_frames@[k].ppn == fresh);
            } else {
                assert(ch2.data_frames@[k].ppn == ch1.data_frames@[k].ppn);
                assert(m2.pt()[v] == m1.pt()[v]);
            }
        };
        assert forall|k: int| 0 <= k < ch2.data_frames@.len() implies a2.count(
            (#[trigger] ch2.data_frames@[k]).ppn,
        ) >= 1 && a2.manages(ch2.data_frames@[k].ppn) by {
            assert(m2.pt().dom().contains(ch2.vpn_table@[k]));
        };
        assert forall|k1: int, k2: int|
            0 <= k1 < k2 < ch2.data_frames@.len() implies (#[trigger] ch2.data_frames@[k1]).ppn != (
        #[trigger] ch2.data_frames@[k2]).ppn by {
            let v1 = ch1.vpn_table@[k1];
            let v2 = ch1.vpn_table@[k2];
            assert(v1 != v2);
            assert(m2.pt()[v1].ppn == ch2.data_frames@[k1].ppn);
            assert(m2.pt()[v2].ppn == ch2.data_frames@[k2].ppn);
            assert(m1.owned_vpn(v1)) by {
                assert(m1.heap_areas.resident(v1));
            };
            assert(m1.owned_vpn(v2)) by {
                assert(m1.heap_areas.resident(v2));
            };
            if v1 != vpn && v2 != vpn {
                assert(m1.pt()[v1].ppn != m1.pt()[v2].ppn);
            } else if v1 == vpn {
                assert(m1.pt()[v2].ppn != fresh);
            } else {
                assert(m1.pt()[v1].ppn != fresh);
            }
        };
    };
    assert forall|v: VirtPageNum| #[trigger] m2.owned_vpn(v) == m1.owned_vpn(v) by {
        if exists|i: int|
            0 <= i < m1.mmap_areas@.len() && (#[trigger] m1.mmap_areas@[i]).resident(v) {
            let i = choose|i: int|
                0 <= i < m1.mmap_areas@.len() && (#[trigger] m1.mmap_areas@[i]).resident(v);
            let k = choose|k: int|
                0 <= k < m1.mmap_areas@[i].vpn_table@.len() && m1.mmap_areas@[i].vpn_table@[k]
                    == v;
            assert(m2.mmap_areas@[i].vpn_table@[k] == v);
            assert(0 <= i < m2.mmap_areas@.len() && (#[trigger] m2.mmap_areas@[i]).resident(v));
        }
        if exists|i: int|
            0 <= i < m2.mmap_areas@.len() && (#[trigger] m2.mmap_areas@[i]).resident(v) {
            let i = choose|i: int|
                0 <= i < m2.mmap_areas@.len() && (#[trigger] m2.mmap_areas@[i]).resident(v);
            let k = choose|k: int|
                0 <= k < m2.mmap_areas@[i].vpn_table@.len() && m2.mmap_areas@[i].vpn_table@[k]
                    == v;
            assert(m1.mmap_areas@[i].vpn_table@[k] == v);
            assert(0 <= i < m1.mmap_areas@.len() && (#[trigger] m1.mmap_areas@[i]).resident(v));
        }
        if exists|i: int|
            0 <= i < m1.vm_areas@.len() && (#[trigger] m1.vm_areas@[i]).map_type is Framed
                && m1.vm_areas@[i].vpn_range.spec_contains(v) {
            let i = choose|i: int|
                0 <= i < m1.vm_areas@.len() && (#[trigger] m1.vm_areas@[i]).map_type is Framed
                    && m1.vm_areas@[i].vpn_range.spec_contains(v);
            assert(0 <= i < m2.vm_areas@.len() && (#[trigger] m2.vm_areas@[i]).map_type is Framed
                && m2.vm_areas@[i].vpn_range.spec_contains(v));
        }
        if exists|i: int|
            0 <= i < m2.vm_areas@.len() && (#[trigger] m2.vm_areas@[i]).map_type is Framed
                && m2.vm_areas@[i].vpn_range.spec_contains(v) {
            let i = choose|i: int|
                0 <= i < m2.vm_areas@.len() && (#[trigger] m2.vm_areas@[i]).map_type is Framed
                    && m2.vm_areas@[i].vpn_range.spec_contains(v);
            assert(0 <= i < m1.vm_areas@.len() && (#[trigger] m1.vm_areas@[i]).map_type is Framed
                && m1.vm_areas@[i].vpn_range.spec_contains(v));
        }
        assert(m2.heap_areas.resident(v) == m1.heap_areas.resident(v));
    };
    assert forall|i: int, j: int| 0 <= i < j < m2.all_ranges().len() implies ranges_disjoint(
        #[trigger] m2.all_ranges()[i],
        #[trigger] m2.all_ranges()[j],
    ) by {
        assert(ranges_disjoint(m1.all_ranges()[i], m1.all_ranges()[j]));
    };
    assert forall|v: VirtPageNum|
        m2.pt().dom().contains(v) && (#[trigger] m2.pt()[v]).flags.cow implies m2.owned_vpn(v) by {
        assert(v != vpn);
        assert(m1.pt()[v].flags.cow);
        assert(m1.owned_vpn(v));
    };
    assert forall|v1: VirtPageNum, v2: VirtPageNum|
        m2.owned_vpn(v1) && m2.owned_vpn(v2) && v1 != v2 implies (#[trigger] m2.pt()[v1]).ppn != (
    #[trigger] m2.pt()[v2]).ppn by {
        assert(m1.owned_vpn(v1) && m1.owned_vpn(v2));
        if v1 != vpn && v2 != vpn {
            lemma_owned_mapped(m1, v1);
            lemma_owned_mapped(m1, v2);
            assert(m2.pt()[v1] == m1.pt()[v1]);
            assert(m2.pt()[v2] == m1.pt()[v2]);
        } else if v1 == vpn {
            assert(m1.pt()[v2].ppn != fresh);
            assert(m2.pt()[v2] == m1.pt()[v2]);
        } else {
            assert(m1.pt()[v1].ppn != fresh);
            assert(m2.pt()[v1] == m1.pt()[v1]);
        }
    };
    assert forall|j: int, v: VirtPageNum|
        0 <= j < m2.page_table.node_ppns().len() && m2.owned_vpn(v) implies (
    #[trigger] m2.page_table.node_ppns()[j]) != (#[trigger] m2.pt()[v]).ppn by {
        assert(m1.owned_vpn(v));
        assert(a1.count(m1.page_table.node_ppns()[j]) >= 1);
        if v == vpn {
            assert(!a1.has_ref(fresh));
        } else {
            lemma_owned_mapped(m1, v);
            assert(m2.pt()[v] == m1.pt()[v]);
        }
    };
    assert forall|j: int|
        0 <= j < m2.page_table.node_ppns().len() implies a2.count(
        #[trigger] m2.page_table.node_ppns()[j],
    ) >= 1 && a2.manages(m2.page_table.node_ppns()[j]) by {
        let q = m1.page_table.node_ppns()[j];
        assert(a1.count(q) >= 1 && a1.manages(q));
        assert(q != former) by {
            assert(m1.owned_vpn(vpn));
            assert(m1.page_table.node_ppns()[j] != m1.pt()[vpn].ppn);
        };
        assert(q != fresh);
    };
}

/// An address space whose regions and page table are unchanged stays
/// well-formed when only the heap boundary moves within the declared heap.
proof fn lemma_wf_brk_change(m1: MemorySet, m2: MemorySet)
    requires
        m1.wf(),
        m2.page_table == m1.page_table,
        m2.vm_areas == m1.vm_areas,
        m2.mmap_areas == m1.mmap_areas,
        m2.heap_areas == m1.heap_areas,
        m2.brk_start == m1.brk_start,
        m2.brk_start <= m2.brk <= m2.heap_range().end.0 * PAGE_SIZE,
    ensures
        m2.wf(),
{
    assert(m2.all_ranges() =~= m1.all_ranges());
    assert(m2.pt() == m1.pt());
    assert forall|i: int, j: int| 0 <= i < j < m2.all_ranges().len() implies ranges_disjoint(
        #[trigger] m2.all_ranges()[i],
        #[trigger] m2.all_ranges()[j],
    ) by {
        assert(ranges_disjoint(m1.all_ranges()[i], m1.all_ranges()[j]));
    };
    assert forall|v: VirtPageNum|
        m2.pt().dom().contains(v) && (#[trigger] m2.pt()[v]).flags.cow implies m2.owned_vpn(
        v,
    ) by {
        assert(m1.owned_vpn(v));
    };
    assert forall|v1: VirtPageNum, v2: VirtPageNum|
        m2.owned_vpn(v1) && m2.owned_vpn(v2) && v1 != v2 implies (#[trigger] m2.pt()[v1]).ppn != (
    #[trigger] m2.pt()[v2]).ppn by {
        assert(m1.owned_vpn(v1));
        assert(m1.owned_vpn(v2));
    };
    assert forall|j: int, v: VirtPageNum|
        0 <= j < m2.page_table.node_ppns().len() && m2.owned_vpn(v) implies (
    #[trigger] m2.page_table.node_ppns()[j]) != (#[trigger] m2.pt()[v]).ppn by {
        assert(m1.owned_vpn(v));
    };
}

/// Byte `off` of the frame that page `v` maps to.
pub open spec fn spec_preload_byte(data: Option<(&Vec<u8>, usize, usize, usize)>, pos: int) -> u8 {
    match data {
        Some((src, offset, dlen, page_offset)) => {
            if page_offset <= pos < page_offset + dlen {
                src@[offset + pos - page_offset]
            } else {
                0u8
            }
        },
        None => 0u8,
    }
}

/// Whether the page range `r` covers the whole byte range
/// `[start, start + len)`.
pub open spec fn range_covers(r: VPNRange, start: int, len: int) -> bool {
    r.start.0 <= start / (PAGE_SIZE as int) && crate::address::spec_page_ceil(start + len)
        <= r.end.0
}

/// The heap boundary after a `grow_proc` by `delta` bytes from `brk`:
/// `None` when the move would leave `[brk_start, limit]`.
pub open spec fn spec_grow(brk: int, brk_start: int, limit: int, delta: int) -> Option<int> {
    let nb = brk + delta;
    if nb > limit || nb < brk_start {
        None
    } else {
        Some(nb)
    }
}

/// Growing the heap by `n` bytes and then shrinking it by `n` restores the
/// original boundary, whenever the grow itself succeeds.
pub proof fn lemma_grow_then_shrink_restores(brk: int, brk_start: int, limit: int, n: int)
    requires
        brk_start <= brk <= limit,
        spec_grow(brk, brk_start, limit, n) is Some,
    ensures
        spec_grow(spec_grow(brk, brk_start, limit, n)->Some_0, brk_start, limit, -n) == Some(brk),
{
}

} // verus!
