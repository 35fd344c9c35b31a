use vmcore::address::{PhysPageNum, VPNRange, VirtAddr, VirtPageNum};
use vmcore::area::{ChunkArea, MapPermission, MapType};
use vmcore::consts::{PAGE_SIZE, TRAMPOLINE, TRAP_CONTEXT, USER_HEAP_SIZE};
use vmcore::frame_allocator::{
    alloc_frame, dealloc_frame, enquire_refcount, frame_add_ref, read_byte, write_byte,
    StackFrameAllocator,
};
use vmcore::memory_set::MemorySet;

fn fresh_allocator(frames: usize) -> StackFrameAllocator {
    let mut a = StackFrameAllocator::new();
    a.init(PhysPageNum(100), PhysPageNum(100 + frames));
    a
}

#[test]
fn alloc_returns_distinct_live_frames() {
    let mut a = fresh_allocator(16);
    let f1 = alloc_frame(&mut a).unwrap();
    let f2 = alloc_frame(&mut a).unwrap();
    let f3 = alloc_frame(&mut a).unwrap();
    assert_ne!(f1.ppn.0, f2.ppn.0);
    assert_ne!(f2.ppn.0, f3.ppn.0);
    assert_ne!(f1.ppn.0, f3.ppn.0);
    assert_eq!(enquire_refcount(&a, f1.ppn), 1);
    assert_eq!(enquire_refcount(&a, f2.ppn), 1);
}

#[test]
fn recycle_is_lifo_and_only_after_last_ref() {
    let mut a = fresh_allocator(16);
    let f1 = alloc_frame(&mut a).unwrap();
    let _f2 = alloc_frame(&mut a).unwrap();
    frame_add_ref(&mut a, f1.ppn);
    assert_eq!(enquire_refcount(&a, f1.ppn), 2);
    dealloc_frame(&mut a, f1.ppn);
    // still one reference: the frame is not reused
    let f3 = alloc_frame(&mut a).unwrap();
    assert_ne!(f3.ppn.0, f1.ppn.0);
    dealloc_frame(&mut a, f1.ppn);
    // now free: the most recently freed frame comes back first
    let f4 = alloc_frame(&mut a).unwrap();
    assert_eq!(f4.ppn.0, f1.ppn.0);
}

#[test]
fn allocation_exhaustion_is_reported() {
    let mut a = fresh_allocator(2);
    let _f1 = alloc_frame(&mut a).unwrap();
    let _f2 = alloc_frame(&mut a).unwrap();
    assert!(alloc_frame(&mut a).is_none());
}

#[test]
fn fresh_frames_are_zeroed() {
    let mut a = fresh_allocator(4);
    let f = alloc_frame(&mut a).unwrap();
    write_byte(&mut a, f.ppn, 7, 0xab);
    assert_eq!(read_byte(&a, f.ppn, 7), 0xab);
    dealloc_frame(&mut a, f.ppn);
    let g = alloc_frame(&mut a).unwrap();
    assert_eq!(g.ppn.0, f.ppn.0);
    assert_eq!(read_byte(&a, g.ppn, 7), 0);
}

#[test]
fn insert_and_translate() {
    let mut a = fresh_allocator(64);
    let mut ms = MemorySet::new_bare(&mut a);
    ms.insert_framed_area(
        VirtAddr(0x10000),
        VirtAddr(0x13000),
        MapPermission::rwu(),
        &mut a,
    );
    let pte = ms.translate(VirtPageNum(0x10)).unwrap();
    assert!(pte.is_valid());
    assert!(!pte.is_cow());
    assert!(pte.writable());
    assert!(ms.translate(VirtPageNum(0x13)).is_none());
}

#[test]
fn check_va_range_is_containment_in_one_area() {
    let mut a = fresh_allocator(64);
    let mut ms = MemorySet::new_bare(&mut a);
    ms.insert_framed_area(
        VirtAddr(0x10000),
        VirtAddr(0x14000),
        MapPermission::rwu(),
        &mut a,
    );
    ms.insert_mmap_area(VirtAddr(0x20000), VirtAddr(0x24000), MapPermission::rwu());
    assert!(ms.check_va_range(VirtAddr(0x10000), 0x4000));
    assert!(ms.check_va_range(VirtAddr(0x10800), 0x800));
    assert!(ms.check_va_range(VirtAddr(0x20000), 0x1000));
    // past the end of the region
    assert!(!ms.check_va_range(VirtAddr(0x13000), 0x2000));
    // straddles the gap between two declared regions
    assert!(!ms.check_va_range(VirtAddr(0x10000), 0x14000));
    assert!(!ms.check_va_range(VirtAddr(0x18000), 0x1000));
    // a byte range that wraps the address space is rejected
    assert!(!ms.check_va_range(VirtAddr(usize::MAX - 0x100), 0x200));
}

fn with_heap(a: &mut StackFrameAllocator, bottom: usize) -> MemorySet {
    let mut ms = MemorySet::new_bare(a);
    ms.heap_areas = ChunkArea::new(
        MapType::Framed,
        MapPermission::rwu(),
        VirtAddr(bottom),
        VirtAddr(bottom + USER_HEAP_SIZE),
    );
    ms.brk_start = bottom;
    ms.brk = bottom;
    ms
}

#[test]
fn grow_then_shrink_restores_brk() {
    let mut a = fresh_allocator(16);
    let mut ms = with_heap(&mut a, 0x100000);
    let b0 = ms.brk;
    assert_eq!(ms.grow_proc(0x3000), Some(b0 + 0x3000));
    assert_eq!(ms.grow_proc(-0x3000), Some(b0));
    assert_eq!(ms.brk, b0);
}

#[test]
fn grow_beyond_heap_limit_fails() {
    let mut a = fresh_allocator(16);
    let mut ms = with_heap(&mut a, 0x100000);
    let b0 = ms.brk;
    assert_eq!(ms.grow_proc((USER_HEAP_SIZE + PAGE_SIZE) as isize), None);
    assert_eq!(ms.brk, b0);
    assert_eq!(ms.grow_proc(-1), None);
    assert_eq!(ms.brk, b0);
}

#[test]
fn lazy_heap_fault_maps_one_zeroed_page() {
    let mut a = fresh_allocator(32);
    let mut ms = with_heap(&mut a, 0x100000);
    ms.grow_proc(PAGE_SIZE as isize);
    let va = VirtAddr(0x100010);
    assert!(ms.translate(va.floor()).is_none());
    assert_eq!(ms.check_lazy(va, &mut a), 0);
    let pte = ms.translate(va.floor()).unwrap();
    assert!(pte.is_valid() && pte.writable() && !pte.is_cow());
    assert_eq!(read_byte(&a, pte.ppn(), 0x10), 0);
}

#[test]
fn fault_outside_every_region_is_fatal_code() {
    let mut a = fresh_allocator(32);
    let mut ms = MemorySet::new_bare(&mut a);
    assert_eq!(ms.check_lazy(VirtAddr(0xdead000), &mut a), -2);
}

#[test]
fn resident_non_cow_fault_reports_already_valid() {
    let mut a = fresh_allocator(64);
    let mut ms = MemorySet::new_bare(&mut a);
    ms.insert_framed_area(
        VirtAddr(0x10000),
        VirtAddr(0x11000),
        MapPermission::rwu(),
        &mut a,
    );
    assert_eq!(ms.check_lazy(VirtAddr(0x10000), &mut a), -4);
}

#[test]
fn lazy_mmap_fault_maps_within_declared_region() {
    let mut a = fresh_allocator(32);
    let mut ms = MemorySet::new_bare(&mut a);
    ms.insert_mmap_area(VirtAddr(0x20000), VirtAddr(0x24000), MapPermission::rwu());
    assert_eq!(ms.lazy_mmap(VirtAddr(0x21000), &mut a), 0);
    assert!(ms.translate(VirtPageNum(0x21)).is_some());
    assert_eq!(ms.lazy_mmap(VirtAddr(0x30000), &mut a), -1);
}

#[test]
fn remove_area_releases_frames() {
    let mut a = fresh_allocator(64);
    let mut ms = MemorySet::new_bare(&mut a);
    ms.insert_framed_area(
        VirtAddr(0x10000),
        VirtAddr(0x12000),
        MapPermission::rwu(),
        &mut a,
    );
    let p0 = ms.translate(VirtPageNum(0x10)).unwrap().ppn();
    assert_eq!(enquire_refcount(&a, p0), 1);
    ms.remove_area_with_start_vpn(VirtPageNum(0x10), &mut a);
    assert!(ms.translate(VirtPageNum(0x10)).is_none());
    assert!(ms.translate(VirtPageNum(0x11)).is_none());
}

#[test]
fn recycle_data_pages_clears_every_vm_area() {
    let mut a = fresh_allocator(64);
    let mut ms = MemorySet::new_bare(&mut a);
    ms.insert_framed_area(
        VirtAddr(0x10000),
        VirtAddr(0x12000),
        MapPermission::rwu(),
        &mut a,
    );
    ms.insert_framed_area(
        VirtAddr(0x30000),
        VirtAddr(0x31000),
        MapPermission::rw(),
        &mut a,
    );
    ms.recycle_data_pages(&mut a);
    assert!(ms.translate(VirtPageNum(0x10)).is_none());
    assert!(ms.translate(VirtPageNum(0x30)).is_none());
}

#[test]
fn cow_write_order_matches_the_sharing_protocol() {
    // A process has one heap page read/write; a fork shares it
    // copy-on-write. The first writer gets a private copy; the last
    // owner then writes in place without a new allocation.
    let mut a = fresh_allocator(64);
    let mut parent = with_heap(&mut a, 0x100000);
    parent.grow_proc(PAGE_SIZE as isize);
    let h = VirtAddr(0x100000);
    assert_eq!(parent.check_lazy(h, &mut a), 0);
    let vpn = h.floor();
    let p0 = parent.translate(vpn).unwrap().ppn();
    write_byte(&mut a, p0, 0, 0x5a);

    let mut child = MemorySet::from_copy_on_write(&mut parent, &mut a);
    assert_eq!(enquire_refcount(&a, p0), 2);
    // the shared heap page appears in the child's resident table
    assert_eq!(child.heap_areas.vpn_table.len(), 1);
    assert_eq!(child.heap_areas.vpn_table[0].0, vpn.0);
    // both sides read the shared frame without faulting a copy
    assert!(!parent.translate(vpn).unwrap().writable());
    assert!(parent.translate(vpn).unwrap().is_cow());
    assert!(child.translate(vpn).unwrap().is_cow());
    assert_eq!(child.translate(vpn).unwrap().ppn().0, p0.0);

    // the child writes first: reference count was 2, one fresh frame
    let free_before = 0;
    assert_eq!(child.check_lazy(h, &mut a), 0);
    let _ = free_before;
    let c1 = child.translate(vpn).unwrap();
    assert!(c1.writable() && !c1.is_cow());
    assert_ne!(c1.ppn().0, p0.0);
    // the copy carried the parent's bytes, the original is intact
    assert_eq!(read_byte(&a, c1.ppn(), 0), 0x5a);
    assert_eq!(read_byte(&a, p0, 0), 0x5a);
    assert_eq!(enquire_refcount(&a, p0), 1);

    // the parent writes second: sole owner, the fast path, no new frame
    let p_before = parent.translate(vpn).unwrap().ppn();
    assert_eq!(parent.check_lazy(h, &mut a), 0);
    let p1 = parent.translate(vpn).unwrap();
    assert!(p1.writable() && !p1.is_cow());
    assert_eq!(p1.ppn().0, p_before.0);
    assert_eq!(enquire_refcount(&a, p1.ppn()), 1);
}

#[test]
fn page_table_tokens_differ_between_spaces() {
    let mut a = fresh_allocator(16);
    let ms1 = MemorySet::new_bare(&mut a);
    let ms2 = MemorySet::new_bare(&mut a);
    assert_ne!(ms1.token(), ms2.token());
    assert_eq!(ms1.token(), ms1.page_table.token());
}

#[test]
fn vpn_ranges_and_addresses() {
    assert_eq!(VirtAddr(0x1234).floor().0, 1);
    assert_eq!(VirtAddr(0x1234).ceil().0, 2);
    assert_eq!(VirtAddr(0x2000).ceil().0, 2);
    assert_eq!(VirtAddr(0x1234).page_offset(), 0x234);
    let r = VPNRange::new(VirtPageNum(4), VirtPageNum(7));
    assert_eq!(r.len(), 3);
    assert!(r.contains(VirtPageNum(4)));
    assert!(!r.contains(VirtPageNum(7)));
}

#[test]
fn fork_shares_pages_cow_and_copies_the_trap_context() {
    let mut a = fresh_allocator(64);
    let mut parent = with_heap(&mut a, 0x100000);
    parent.insert_framed_area(
        VirtAddr(0x10000),
        VirtAddr(0x12000),
        MapPermission::rwu(),
        &mut a,
    );
    parent.insert_framed_area(
        VirtAddr(TRAP_CONTEXT),
        VirtAddr(TRAMPOLINE),
        MapPermission::rw(),
        &mut a,
    );
    // one resident mmap page and one resident heap page join the fork
    parent.insert_mmap_area(VirtAddr(0x20000), VirtAddr(0x22000), MapPermission::rwu());
    assert_eq!(parent.check_lazy(VirtAddr(0x21000), &mut a), 0);
    parent.grow_proc(PAGE_SIZE as isize);
    assert_eq!(parent.check_lazy(VirtAddr(0x100000), &mut a), 0);
    let data_ppn = parent.translate(VirtPageNum(0x10)).unwrap().ppn();
    let trap_vpn = VirtAddr(TRAP_CONTEXT).floor();
    let trap_ppn = parent.translate(trap_vpn).unwrap().ppn();
    write_byte(&mut a, data_ppn, 5, 0x11);
    write_byte(&mut a, trap_ppn, 9, 0x77);

    let child = MemorySet::from_copy_on_write(&mut parent, &mut a);

    // every resident page outside the trap context, whether of a
    // contiguous region, an mmap region or the heap: one shared frame
    // with two owners, read-only and marked copy-on-write on both sides
    for vpn in [0x10usize, 0x11, 0x21, 0x100] {
        let p = parent.translate(VirtPageNum(vpn)).unwrap();
        let c = child.translate(VirtPageNum(vpn)).unwrap();
        assert_eq!(p.ppn().0, c.ppn().0);
        assert!(p.is_cow() && c.is_cow());
        assert!(!p.writable() && !c.writable());
        assert_eq!(enquire_refcount(&a, p.ppn()), 2);
    }
    assert_eq!(read_byte(&a, data_ppn, 5), 0x11);
    // the child's resident tables mirror the parent's
    assert_eq!(child.mmap_areas.len(), 1);
    assert_eq!(child.mmap_areas[0].vpn_table.len(), 1);
    assert_eq!(child.mmap_areas[0].vpn_table[0].0, 0x21);
    assert_eq!(child.heap_areas.vpn_table.len(), 1);
    assert_eq!(child.heap_areas.vpn_table[0].0, 0x100);

    // the trap-context page is copied, not shared: fresh frame, sole
    // owner on each side, same bytes
    let pt = parent.translate(trap_vpn).unwrap();
    let ct = child.translate(trap_vpn).unwrap();
    assert_ne!(pt.ppn().0, ct.ppn().0);
    assert!(!pt.is_cow() && !ct.is_cow());
    assert!(pt.writable() && ct.writable());
    assert_eq!(enquire_refcount(&a, pt.ppn()), 1);
    assert_eq!(enquire_refcount(&a, ct.ppn()), 1);
    assert_eq!(read_byte(&a, ct.ppn(), 9), 0x77);

    // boundaries mirrored
    assert_eq!(child.brk, parent.brk);
    assert_eq!(child.brk_start, parent.brk_start);
}

#[test]
fn child_exit_restores_the_parent() {
    let mut a = fresh_allocator(64);
    let mut parent = with_heap(&mut a, 0x100000);
    parent.insert_framed_area(
        VirtAddr(0x10000),
        VirtAddr(0x11000),
        MapPermission::rwu(),
        &mut a,
    );
    parent.insert_framed_area(
        VirtAddr(TRAP_CONTEXT),
        VirtAddr(TRAMPOLINE),
        MapPermission::rw(),
        &mut a,
    );
    // a resident heap page takes part in the fork and the teardown
    parent.grow_proc(PAGE_SIZE as isize);
    assert_eq!(parent.check_lazy(VirtAddr(0x100000), &mut a), 0);
    let p0 = parent.translate(VirtPageNum(0x10)).unwrap().ppn();
    let h0 = parent.translate(VirtPageNum(0x100)).unwrap().ppn();
    write_byte(&mut a, p0, 3, 0x42);
    write_byte(&mut a, h0, 7, 0x9c);

    let mut child = MemorySet::from_copy_on_write(&mut parent, &mut a);
    assert_eq!(enquire_refcount(&a, p0), 2);
    assert_eq!(enquire_refcount(&a, h0), 2);
    let trap_vpn = VirtAddr(TRAP_CONTEXT).floor();
    let ct = child.translate(trap_vpn).unwrap().ppn();
    child.recycle_data_pages(&mut a);
    // the exiting child's heap handle is dropped as well, releasing its
    // reference on the shared frame
    assert_eq!(child.heap_areas.data_frames[0].ppn.0, h0.0);
    dealloc_frame(&mut a, h0);
    // the child's private trap-context copy reached count zero and is
    // back in the pool: the next allocation reuses it
    let reused = alloc_frame(&mut a).unwrap();
    assert_eq!(reused.ppn.0, ct.0);

    // the parent is the sole owner again and its bytes are intact
    assert_eq!(enquire_refcount(&a, p0), 1);
    assert_eq!(enquire_refcount(&a, h0), 1);
    assert_eq!(read_byte(&a, p0, 3), 0x42);
    assert_eq!(read_byte(&a, h0, 7), 0x9c);

    // its next write takes the in-place path: the mark is cleared on the
    // same frame, no allocation
    assert_eq!(parent.check_lazy(VirtAddr(0x10000), &mut a), 0);
    let p1 = parent.translate(VirtPageNum(0x10)).unwrap();
    assert_eq!(p1.ppn().0, p0.0);
    assert!(p1.writable() && !p1.is_cow());
    assert_eq!(read_byte(&a, p0, 3), 0x42);
}
