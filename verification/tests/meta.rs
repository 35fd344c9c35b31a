use vmcore::console::ConsoleBufferManager;
use vmcore::dev::{Null, Zero};
use vmcore::dirent::{Dirent, FileType};
use vmcore::info::Utsname;
use vmcore::open_flags::{OpenFlags, O_RDWR, O_WRONLY};
use vmcore::stat::{Kstat, Statfs, TimeInfo, S_IFDIR, S_IFREG};
use vmcore::task::RecycleAllocator;

#[test]
fn kstat_init_sets_one_link() {
    let mut k = Kstat::empty();
    k.init(4096, 512, 8, S_IFREG, 42, 1, 2, 3);
    assert_eq!(k.st_nlink, 1);
    assert_eq!(k.st_ino, 42);
    assert_eq!(k.st_size, 4096);
    let t = TimeInfo::empty();
    assert_eq!(t.atime, 0);
    let s = Statfs::new();
    assert_eq!(s.f_bsize, 512);
}

#[test]
fn file_types_round_trip_through_tags_and_modes() {
    assert_eq!(FileType::from_file_mode(S_IFDIR).to_file_mode(), S_IFDIR);
    assert_eq!(FileType::from_u8(8).to_file_mode(), S_IFREG);
    assert_eq!(FileType::from_u8(99).to_u8(), 0);
}

#[test]
fn dirent_keeps_name_and_type() {
    let name = b"init".to_vec();
    let d = Dirent::new(&name, 0, 5, FileType::RegularFile);
    assert_eq!(d.d_ino, 5);
    let (n, mode) = d.info();
    assert_eq!(n, name);
    assert_eq!(mode, S_IFREG);
}

#[test]
fn open_flags_readability() {
    assert!(OpenFlags::from_bits(0).is_readable());
    assert!(!OpenFlags::from_bits(O_WRONLY).is_writable() == false);
    assert!(OpenFlags::from_bits(O_RDWR).is_readable());
    assert!(OpenFlags::from_bits(O_RDWR).is_writable());
    assert!(!OpenFlags::from_bits(0).is_writable());
}

#[test]
fn recycle_allocator_reuses_most_recent_first() {
    let mut ra = RecycleAllocator::new();
    let a = ra.alloc_id();
    let b = ra.alloc_id();
    assert_eq!((a, b), (0, 1));
    ra.dealloc_id(a);
    ra.dealloc_id(b);
    assert_eq!(ra.alloc_id(), b);
    assert_eq!(ra.alloc_id(), a);
    assert_eq!(ra.alloc_id(), 2);
}

#[test]
fn console_buffers_are_per_process() {
    let mut m = ConsoleBufferManager::new();
    m.buffer_print(3, &b"hello ".to_vec());
    m.buffer_print(4, &b"other".to_vec());
    m.buffer_print(3, &b"world".to_vec());
    assert!(m.peek_output_buffer(3));
    let b = m.get_output_buffer(3).unwrap();
    assert_eq!(b.inner, b"hello world".to_vec());
    assert!(!m.peek_output_buffer(3));
    assert!(m.peek_output_buffer(4));
}

#[test]
fn zero_reads_zeroes_and_null_swallows_writes() {
    let z = Zero::new(1);
    let data = z.read(100, 5);
    assert_eq!(data, vec![0, 0, 0, 0, 0]);
    let n = Null::new(2);
    assert_eq!(n.write(&b"anything".to_vec()), 8);
}

#[test]
fn utsname_rows_are_fixed_width() {
    let u = Utsname::new();
    assert_eq!(u.sysname.len(), 65);
    assert_eq!(&u.sysname[..5], b"Linux");
    assert_eq!(u.machine.len(), 65);
}
