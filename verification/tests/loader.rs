use vmcore::address::{PhysPageNum, VirtAddr, VirtPageNum};
use vmcore::consts::{PAGE_SIZE, TRAMPOLINE, TRAP_CONTEXT, USER_STACK_SIZE};
use vmcore::frame_allocator::{read_byte, StackFrameAllocator};
use vmcore::loader::{parse_elf_segments, Segment};
use vmcore::memory_set::MemorySet;

fn le64(v: u64) -> [u8; 8] {
    v.to_le_bytes()
}

fn minimal_elf() -> Vec<u8> {
    let mut b = vec![0u8; 124];
    // identification: magic, 64-bit, little-endian, version 1
    b[0] = 0x7f;
    b[1] = b'E';
    b[2] = b'L';
    b[3] = b'F';
    b[4] = 2;
    b[5] = 1;
    b[6] = 1;
    // type EXEC, machine, version
    b[16] = 2;
    b[18] = 0xf3;
    b[20] = 1;
    // entry point, program-header table offset
    b[24..32].copy_from_slice(&le64(0x10000));
    b[32..40].copy_from_slice(&le64(64));
    // header sizes and counts
    b[52] = 64;
    b[54] = 56;
    b[56] = 1;
    // one LOAD segment: readable and executable, 4 file bytes at 120,
    // one memory page at 0x10000
    b[64] = 1;
    b[68] = 5;
    b[72..80].copy_from_slice(&le64(120));
    b[80..88].copy_from_slice(&le64(0x10000));
    b[88..96].copy_from_slice(&le64(0x10000));
    b[96..104].copy_from_slice(&le64(4));
    b[104..112].copy_from_slice(&le64(0x1000));
    b[112..120].copy_from_slice(&le64(0x1000));
    b[120] = 0x13;
    b
}

#[test]
fn loadable_segments_are_extracted_and_checked() {
    let data = minimal_elf();
    let (segments, entry) = parse_elf_segments(&data).expect("a well-formed image parses");
    assert_eq!(entry, 0x10000);
    assert_eq!(segments.len(), 1);
    let s = &segments[0];
    assert_eq!(s.start_va, 0x10000);
    assert_eq!(s.end_va, 0x11000);
    assert_eq!(s.offset, 120);
    assert_eq!(s.file_size, 4);
    assert!(s.readable && s.executable && !s.writable);
}

#[test]
fn garbage_is_rejected() {
    assert!(parse_elf_segments(&vec![0u8; 16]).is_none());
    assert!(parse_elf_segments(&b"not an elf image at all".to_vec()).is_none());
    // a truncated program-header table is rejected too
    let mut data = minimal_elf();
    data.truncate(80);
    assert!(parse_elf_segments(&data).is_none());
}

#[test]
fn oversized_file_window_is_rejected() {
    let mut data = minimal_elf();
    // claim more file bytes than the image holds
    data[96..104].copy_from_slice(&le64(4096));
    assert!(parse_elf_segments(&data).is_none());
}

#[test]
fn load_elf_builds_the_address_space() {
    let data = minimal_elf();
    let mut a = StackFrameAllocator::new();
    a.init(PhysPageNum(100), PhysPageNum(100 + 8192));
    let tramp = PhysPageNum(7);
    let (ms, stack_top, entry) =
        MemorySet::load_elf(&data, tramp, &mut a).expect("a well-formed image loads");
    assert_eq!(entry, 0x10000);

    // the trampoline points at the given physical page
    let tp = ms.translate(VirtPageNum(TRAMPOLINE / PAGE_SIZE)).unwrap();
    assert_eq!(tp.ppn().0, tramp.0);
    assert!(!tp.writable());

    // the trap-context page sits just below it, mapped read/write
    let tc = ms.translate(VirtAddr(TRAP_CONTEXT).floor()).unwrap();
    assert!(tc.writable());

    // the one loadable segment: a page at 0x10000 holding the four file
    // bytes, zero beyond them, readable and executable but not writable
    let seg = ms.translate(VirtPageNum(0x10)).unwrap();
    assert!(!seg.writable());
    assert_eq!(read_byte(&a, seg.ppn(), 0), 0x13);
    assert_eq!(read_byte(&a, seg.ppn(), 1), 0);
    assert_eq!(read_byte(&a, seg.ppn(), 4), 0);

    // the user stack: one guard page above the image, of the fixed size,
    // mapped writable up to its top
    assert_eq!(stack_top, 0x12000 + USER_STACK_SIZE);
    let sp = ms.translate(VirtAddr(stack_top - 1).floor()).unwrap();
    assert!(sp.writable());
    assert!(ms.translate(VirtPageNum(0x11)).is_none());

    // the heap: declared one guard page above the stack, still empty
    assert_eq!(ms.brk_start, stack_top + PAGE_SIZE);
    assert_eq!(ms.brk, ms.brk_start);
    assert!(ms.translate(VirtAddr(ms.brk_start).floor()).is_none());
}

#[test]
fn load_elf_rejects_what_the_parser_rejects() {
    let mut a = StackFrameAllocator::new();
    a.init(PhysPageNum(100), PhysPageNum(100 + 8192));
    let mut data = minimal_elf();
    data[0] = 0;
    assert!(MemorySet::load_elf(&data, PhysPageNum(7), &mut a).is_none());
}

#[test]
fn build_rejects_overlap_and_owes_success_otherwise() {
    let data = minimal_elf();
    let seg = Segment {
        start_va: 0x10000,
        end_va: 0x11000,
        offset: 120,
        file_size: 4,
        readable: true,
        writable: false,
        executable: true,
    };
    let second = Segment {
        start_va: 0x10800,
        end_va: 0x12000,
        offset: 0,
        file_size: 0,
        readable: true,
        writable: true,
        executable: false,
    };
    // overlapping page ranges are rejected
    let mut a = StackFrameAllocator::new();
    a.init(PhysPageNum(100), PhysPageNum(100 + 8192));
    let overlapping = vec![seg, second];
    assert!(MemorySet::build_address_space(&data, &overlapping, PhysPageNum(7), &mut a).is_none());
    // sound, disjoint segments with room and frames always build
    let mut a2 = StackFrameAllocator::new();
    a2.init(PhysPageNum(100), PhysPageNum(100 + 8192));
    let good = vec![seg];
    let (ms, stack_top) =
        MemorySet::build_address_space(&data, &good, PhysPageNum(7), &mut a2)
            .expect("disjoint sound segments build");
    assert_eq!(stack_top, 0x12000 + USER_STACK_SIZE);
    assert_eq!(read_byte(&a2, ms.translate(VirtPageNum(0x10)).unwrap().ppn(), 0), 0x13);
    // a segment whose file window lies past the image is rejected
    let mut a3 = StackFrameAllocator::new();
    a3.init(PhysPageNum(100), PhysPageNum(100 + 8192));
    let unsound = vec![Segment { offset: 4096, ..seg }];
    assert!(MemorySet::build_address_space(&data, &unsound, PhysPageNum(7), &mut a3).is_none());
}
