//! ELF program-header extraction for process loading.
//!
//! The byte-level parsing is the `xmas-elf` crate's; every call into it
//! stands behind a trusted declaration below. Each parsed quantity is
//! named as a function of the image bytes alone, so the contract of
//! `parse_elf_segments` pins its result to those names: whenever it
//! succeeds, the segment list is exactly the image's loadable segments.
//! Success itself cannot be owed: the parser declines images it cannot
//! read, and the guards below also decline a buffer whose placement
//! would make the parser's raw reads fault, which no byte function can
//! express.
use vstd::prelude::*;

use crate::consts::MAX_VPN;

verus! {

/// One loadable segment of an executable: where its bytes live in the
/// file and where they belong in memory.
#[derive(Clone, Copy, Debug, PartialEq, Eq, Structural)]
pub struct Segment {
    /// First virtual byte address of the segment.
    pub start_va: usize,
    /// One past the last virtual byte address.
    pub end_va: usize,
    /// Offset of the segment's image in the file.
    pub offset: usize,
    /// Bytes of file image; the rest of the memory size is zero-filled.
    pub file_size: usize,
    pub readable: bool,
    pub writable: bool,
    pub executable: bool,
}

impl Segment {
    /// Addresses are ordered, lie within the pageable range, and the
    /// file window fits in the given file.
    pub open spec fn sound(self, file_len: int) -> bool {
        &&& self.start_va <= self.end_va
        &&& self.end_va <= MAX_VPN * crate::consts::PAGE_SIZE
        &&& self.offset + self.file_size <= file_len
        &&& self.file_size <= self.end_va - self.start_va
    }
}

/// Whether `xmas_elf::ElfFile::new` accepts these bytes as an ELF image.
pub uninterp spec fn elf_parses(data: Seq<u8>) -> bool;

/// What `HeaderPt2::entry_point` reads from these bytes.
pub uninterp spec fn elf_entry_of(data: Seq<u8>) -> u64;

/// What `HeaderPt2::ph_count` reads from these bytes.
pub uninterp spec fn elf_ph_count_of(data: Seq<u8>) -> u16;

/// Whether `ProgramHeader::get_type` reads a loadable segment at index
/// `i` of these bytes.
pub uninterp spec fn ph_is_load_of(data: Seq<u8>, i: int) -> bool;

/// What `ProgramHeader::virtual_addr` reads at index `i`.
pub uninterp spec fn ph_vaddr_of(data: Seq<u8>, i: int) -> u64;

/// What `ProgramHeader::mem_size` reads at index `i`.
pub uninterp spec fn ph_mem_size_of(data: Seq<u8>, i: int) -> u64;

/// What `ProgramHeader::offset` reads at index `i`.
pub uninterp spec fn ph_offset_of(data: Seq<u8>, i: int) -> u64;

/// What `ProgramHeader::file_size` reads at index `i`.
pub uninterp spec fn ph_file_size_of(data: Seq<u8>, i: int) -> u32;

/// What `ProgramHeader::flags` reads at index `i`, as raw bits.
pub uninterp spec fn ph_flags_of(data: Seq<u8>, i: int) -> u32;

} // verus!

verus! {

/// Relies on xmas_elf::ElfFile::new (header.rs `parse_header`): bytes
/// that lack the magic, a known class or a whole header are rejected
/// before any aligned read, so rejection is a function of the bytes.
/// Acceptance additionally needs the buffer 8-aligned, which the guard
/// enforces instead of the parser's assertion.
#[verifier::external_body]
fn elf_accepts(data: &[u8]) -> (r: bool)
    ensures
        r ==> elf_parses(data@),
        !elf_parses(data@) ==> !r,
{
    if (data.as_ptr() as usize) % 8 != 0 {
        return false;
    }
    xmas_elf::ElfFile::new(data).is_ok()
}

/// Relies on xmas_elf::header::HeaderPt2::entry_point, a field read on
/// the parse of these bytes.
#[verifier::external_body]
fn elf_entry_point(data: &[u8]) -> (r: Option<u64>)
    ensures
        r is Some ==> r->0 == elf_entry_of(data@) && elf_parses(data@),
{
    if (data.as_ptr() as usize) % 8 != 0 {
        return None;
    }
    xmas_elf::ElfFile::new(data).ok().map(|e| e.header.pt2.entry_point())
}

/// Relies on xmas_elf::header::HeaderPt2::ph_count, a field read on the
/// parse of these bytes.
#[verifier::external_body]
fn elf_ph_count(data: &[u8]) -> (r: Option<u16>)
    ensures
        r is Some ==> r->0 == elf_ph_count_of(data@) && elf_parses(data@),
{
    if (data.as_ptr() as usize) % 8 != 0 {
        return None;
    }
    xmas_elf::ElfFile::new(data).ok().map(|e| e.header.pt2.ph_count())
}

/// Relies on xmas_elf::program::parse_program_header: whether reading
/// record `i` stays within the image and lands on an address the
/// parser's raw reads accept. A misaligned buffer is declined before the
/// parser sees it. The outcome depends on the buffer's placement, so
/// nothing is promised of it.
#[verifier::external_body]
fn ph_readable(data: &[u8], i: u16) -> (r: bool)
{
    let base = data.as_ptr() as usize;
    if base % 8 != 0 {
        return false;
    }
    let e = match xmas_elf::ElfFile::new(data) { Ok(e) => e, Err(_) => return false };
    let (off, size) = (e.header.pt2.ph_offset() as usize, e.header.pt2.ph_entry_size() as usize);
    let need = match e.header.pt1.class() {
        xmas_elf::header::Class::SixtyFour => 56,
        xmas_elf::header::Class::ThirtyTwo => 32,
        _ => return false,
    };
    let start = match (i as usize).checked_mul(size).and_then(|x| x.checked_add(off)) {
        Some(s) => s, None => return false,
    };
    size >= need && start <= data.len() && size <= data.len() - start && (base + start) % 8 == 0
}

/// Relies on xmas_elf::program::ProgramHeader::get_type: whether record
/// `i` is a loadable segment; the variants are told apart, nothing else.
#[verifier::external_body]
fn ph_is_load(data: &[u8], i: u16) -> (r: Option<bool>)
    ensures
        r is Some ==> r->0 == ph_is_load_of(data@, i as int),
{
    if !ph_readable(data, i) {
        return None;
    }
    let e = xmas_elf::ElfFile::new(data).ok()?;
    let ph = e.program_header(i).ok()?;
    match ph.get_type() {
        Ok(xmas_elf::program::Type::Load) => Some(true),
        Ok(_) => Some(false),
        Err(_) => None,
    }
}

/// Relies on xmas_elf::program::ProgramHeader::virtual_addr, a field
/// read on record `i` of these bytes.
#[verifier::external_body]
fn ph_virtual_addr(data: &[u8], i: u16) -> (r: Option<u64>)
    ensures
        r is Some ==> r->0 == ph_vaddr_of(data@, i as int),
{
    if !ph_readable(data, i) {
        return None;
    }
    let e = xmas_elf::ElfFile::new(data).ok()?;
    e.program_header(i).ok().map(|ph| ph.virtual_addr())
}

/// Relies on xmas_elf::program::ProgramHeader::mem_size, a field read
/// on record `i` of these bytes.
#[verifier::external_body]
fn ph_mem_size(data: &[u8], i: u16) -> (r: Option<u64>)
    ensures
        r is Some ==> r->0 == ph_mem_size_of(data@, i as int),
{
    if !ph_readable(data, i) {
        return None;
    }
    let e = xmas_elf::ElfFile::new(data).ok()?;
    e.program_header(i).ok().map(|ph| ph.mem_size())
}

/// Relies on xmas_elf::program::ProgramHeader::offset, a field read on
/// record `i` of these bytes.
#[verifier::external_body]
fn ph_file_offset(data: &[u8], i: u16) -> (r: Option<u64>)
    ensures
        r is Some ==> r->0 == ph_offset_of(data@, i as int),
{
    if !ph_readable(data, i) {
        return None;
    }
    let e = xmas_elf::ElfFile::new(data).ok()?;
    e.program_header(i).ok().map(|ph| ph.offset())
}

/// Relies on xmas_elf::program::ProgramHeader::file_size, a field read
/// on record `i` of these bytes, clipped to the u32 range it must pass
/// the checks below with anyway.
#[verifier::external_body]
fn ph_file_size(data: &[u8], i: u16) -> (r: Option<u32>)
    ensures
        r is Some ==> r->0 == ph_file_size_of(data@, i as int),
{
    if !ph_readable(data, i) {
        return None;
    }
    let e = xmas_elf::ElfFile::new(data).ok()?;
    let v = e.program_header(i).ok()?.file_size();
    u32::try_from(v).ok()
}

/// Relies on xmas_elf::program::ProgramHeader::flags, the raw
/// permission bits of record `i`.
#[verifier::external_body]
fn ph_flags_bits(data: &[u8], i: u16) -> (r: Option<u32>)
    ensures
        r is Some ==> r->0 == ph_flags_of(data@, i as int),
{
    if !ph_readable(data, i) {
        return None;
    }
    let e = xmas_elf::ElfFile::new(data).ok()?;
    e.program_header(i).ok().map(|ph| ph.flags().0)
}

/// The segment record the names describe at index `i`.
pub open spec fn segment_of(data: Seq<u8>, i: int) -> Segment {
    Segment {
        start_va: ph_vaddr_of(data, i) as usize,
        end_va: (ph_vaddr_of(data, i) + ph_mem_size_of(data, i)) as usize,
        offset: ph_offset_of(data, i) as usize,
        file_size: ph_file_size_of(data, i) as usize,
        readable: ph_flags_of(data, i) & 4 == 4,
        writable: ph_flags_of(data, i) & 2 == 2,
        executable: ph_flags_of(data, i) & 1 == 1,
    }
}

/// The loadable segments among the first `n` records, in record order.
pub open spec fn load_segments_of(data: Seq<u8>, n: int) -> Seq<Segment>
    decreases n,
{
    if n <= 0 {
        Seq::empty()
    } else if ph_is_load_of(data, n - 1) {
        load_segments_of(data, n - 1).push(segment_of(data, n - 1))
    } else {
        load_segments_of(data, n - 1)
    }
}

/// Extract the loadable segments and the entry point of the executable
/// image `data`. Whenever extraction succeeds, the result is exactly
/// what the parser read: the entry point and, in record order, every
/// loadable segment of the image, each checked sound for a file of this
/// length. Extraction fails on bytes the parser rejects, on a segment
/// whose addresses are not sound, and on a buffer placement the
/// parser's raw reads would fault on.
pub fn parse_elf_segments(data: &Vec<u8>) -> (r: Option<(Vec<Segment>, usize)>)
    ensures
        match r {
            Some(parsed) => {
                &&& elf_parses(data@)
                &&& parsed.1 == elf_entry_of(data@) as usize
                &&& elf_entry_of(data@) <= usize::MAX as u64
                &&& parsed.0@ == load_segments_of(data@, elf_ph_count_of(data@) as int)
                &&& forall|k: int|
                    0 <= k < parsed.0@.len() ==> (#[trigger] parsed.0@[k]).sound(
                        data@.len() as int,
                    )
            },
            None => true,
        },
        // the declines the parser's own rejection forces are owed
        !elf_parses(data@) ==> r is None,
        (exists|k: int|
            0 <= k < load_segments_of(data@, elf_ph_count_of(data@) as int).len() && !(
            #[trigger] load_segments_of(data@, elf_ph_count_of(data@) as int)[k]).sound(
                data@.len() as int,
            )) ==> r is None,
{
    if !elf_accepts(data.as_slice()) {
        return None;
    }
    let entry = match elf_entry_point(data.as_slice()) {
        Some(e) => e,
        None => {
            return None;
        },
    };
    if entry > usize::MAX as u64 {
        return None;
    }
    let count = match elf_ph_count(data.as_slice()) {
        Some(c) => c,
        None => {
            return None;
        },
    };
    let mut segments: Vec<Segment> = Vec::new();
    let mut i: u16 = 0;
    while i < count
        invariant
            i <= count,
            count == elf_ph_count_of(data@),
            segments@ == load_segments_of(data@, i as int),
            forall|k: int|
                0 <= k < segments@.len() ==> (#[trigger] segments@[k]).sound(data@.len() as int),
        decreases count - i,
    {
        let is_load = match ph_is_load(data.as_slice(), i) {
            Some(b) => b,
            None => {
                return None;
            },
        };
        if is_load {
            let va = match ph_virtual_addr(data.as_slice(), i) {
                Some(v) => v,
                None => {
                    return None;
                },
            };
            let mem_size = match ph_mem_size(data.as_slice(), i) {
                Some(v) => v,
                None => {
                    return None;
                },
            };
            let offset = match ph_file_offset(data.as_slice(), i) {
                Some(v) => v,
                None => {
                    return None;
                },
            };
            let file_size = match ph_file_size(data.as_slice(), i) {
                Some(v) => v,
                None => {
                    return None;
                },
            };
            let flags = match ph_flags_bits(data.as_slice(), i) {
                Some(v) => v,
                None => {
                    return None;
                },
            };
            // reject what no address space could hold: overflowing or
            // unpageable addresses, or a file window past the data
            if va > usize::MAX as u64 || mem_size > usize::MAX as u64 {
                return None;
            }
            let start_va = va as usize;
            if mem_size as usize > usize::MAX - start_va {
                return None;
            }
            let end_va = start_va + mem_size as usize;
            if end_va / crate::consts::PAGE_SIZE >= MAX_VPN {
                return None;
            }
            if offset > usize::MAX as u64 {
                return None;
            }
            let off = offset as usize;
            let fsz = file_size as usize;
            if fsz > data.len() || off > data.len() - fsz {
                return None;
            }
            if fsz > end_va - start_va {
                return None;
            }
            let seg = Segment {
                start_va,
                end_va,
                offset: off,
                file_size: fsz,
                readable: flags & 4 == 4,
                writable: flags & 2 == 2,
                executable: flags & 1 == 1,
            };
            proof {
                assert(seg == segment_of(data@, i as int));
                assert(seg.sound(data@.len() as int)) by {
                    assert(end_va <= MAX_VPN * crate::consts::PAGE_SIZE) by {
                        assert(end_va / crate::consts::PAGE_SIZE < MAX_VPN);
                        assert(end_va < (end_va / crate::consts::PAGE_SIZE + 1)
                            * crate::consts::PAGE_SIZE);
                    };
                };
                assert(segments@.push(seg) =~= load_segments_of(data@, i + 1));
            }
            segments.push(seg);
        }
        i = i + 1;
    }
    Some((segments, entry as usize))
}

} // verus!
