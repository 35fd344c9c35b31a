//! Directory entries: the fixed-size records a directory read hands out.
use vstd::prelude::*;

use crate::stat::{S_IFBLK, S_IFCHR, S_IFDIR, S_IFIFO, S_IFLNK, S_IFREG, S_IFSOCK};

verus! {

/// Longest stored file name, terminator included.
pub const NAME_LIMIT: usize = 64;

/// The type tag of a directory entry.
#[derive(Clone, Copy, Debug, PartialEq, Eq, Structural)]
pub enum FileType {
    UNKNOWN,
    FIFOFile,
    CharDevice,
    Directory,
    BlockDevice,
    RegularFile,
    LinkFile,
    SocketFile,
}

impl FileType {
    /// The directory-entry tag value of this type.
    pub fn to_u8(&self) -> (r: u8)
        ensures
            r == self.spec_u8(),
    {
        match self {
            FileType::UNKNOWN => 0,
            FileType::FIFOFile => 1,
            FileType::CharDevice => 2,
            FileType::Directory => 4,
            FileType::BlockDevice => 6,
            FileType::RegularFile => 8,
            FileType::LinkFile => 10,
            FileType::SocketFile => 12,
        }
    }

    pub open spec fn spec_u8(self) -> u8 {
        match self {
            FileType::UNKNOWN => 0,
            FileType::FIFOFile => 1,
            FileType::CharDevice => 2,
            FileType::Directory => 4,
            FileType::BlockDevice => 6,
            FileType::RegularFile => 8,
            FileType::LinkFile => 10,
            FileType::SocketFile => 12,
        }
    }

    /// The type a directory-entry tag value decodes to; anything
    /// unknown is `UNKNOWN`.
    pub open spec fn spec_from_u8(file_type: u8) -> FileType {
        if file_type == 1 {
            FileType::FIFOFile
        } else if file_type == 2 {
            FileType::CharDevice
        } else if file_type == 4 {
            FileType::Directory
        } else if file_type == 6 {
            FileType::BlockDevice
        } else if file_type == 8 {
            FileType::RegularFile
        } else if file_type == 10 {
            FileType::LinkFile
        } else if file_type == 12 {
            FileType::SocketFile
        } else {
            FileType::UNKNOWN
        }
    }

    /// The file mode word of this type; `UNKNOWN` has none and yields 0.
    pub open spec fn spec_file_mode(self) -> u32 {
        match self {
            FileType::FIFOFile => S_IFIFO,
            FileType::CharDevice => S_IFCHR,
            FileType::Directory => S_IFDIR,
            FileType::BlockDevice => S_IFBLK,
            FileType::RegularFile => S_IFREG,
            FileType::LinkFile => S_IFLNK,
            FileType::SocketFile => S_IFSOCK,
            FileType::UNKNOWN => 0,
        }
    }

    /// The type a file mode word decodes to; any other mode is
    /// `UNKNOWN`.
    pub open spec fn spec_from_mode(mode: u32) -> FileType {
        if mode == S_IFIFO {
            FileType::FIFOFile
        } else if mode == S_IFCHR {
            FileType::CharDevice
        } else if mode == S_IFDIR {
            FileType::Directory
        } else if mode == S_IFBLK {
            FileType::BlockDevice
        } else if mode == S_IFREG {
            FileType::RegularFile
        } else if mode == S_IFLNK {
            FileType::LinkFile
        } else if mode == S_IFSOCK {
            FileType::SocketFile
        } else {
            FileType::UNKNOWN
        }
    }

    /// The type encoded in a file mode word.
    pub fn from_file_mode(mode: u32) -> (r: FileType)
        ensures
            r == FileType::spec_from_mode(mode),
    {
        if mode == S_IFIFO {
            FileType::FIFOFile
        } else if mode == S_IFCHR {
            FileType::CharDevice
        } else if mode == S_IFDIR {
            FileType::Directory
        } else if mode == S_IFBLK {
            FileType::BlockDevice
        } else if mode == S_IFREG {
            FileType::RegularFile
        } else if mode == S_IFLNK {
            FileType::LinkFile
        } else if mode == S_IFSOCK {
            FileType::SocketFile
        } else {
            FileType::UNKNOWN
        }
    }

    /// The file mode word of this type.
    pub fn to_file_mode(&self) -> (r: u32)
        ensures
            r == self.spec_file_mode(),
    {
        match self {
            FileType::FIFOFile => S_IFIFO,
            FileType::CharDevice => S_IFCHR,
            FileType::Directory => S_IFDIR,
            FileType::BlockDevice => S_IFBLK,
            FileType::RegularFile => S_IFREG,
            FileType::LinkFile => S_IFLNK,
            FileType::SocketFile => S_IFSOCK,
            FileType::UNKNOWN => 0,
        }
    }

    /// The type of a directory-entry tag value.
    pub fn from_u8(file_type: u8) -> (r: FileType)
        ensures
            r == FileType::spec_from_u8(file_type),
    {
        if file_type == 1 {
            FileType::FIFOFile
        } else if file_type == 2 {
            FileType::CharDevice
        } else if file_type == 4 {
            FileType::Directory
        } else if file_type == 6 {
            FileType::BlockDevice
        } else if file_type == 8 {
            FileType::RegularFile
        } else if file_type == 10 {
            FileType::LinkFile
        } else if file_type == 12 {
            FileType::SocketFile
        } else {
            FileType::UNKNOWN
        }
    }
}

/// One directory entry: inode number, offset of the next entry, a type
/// tag and the zero-terminated name.
pub struct Dirent {
    pub d_ino: usize,
    pub d_off: isize,
    pub d_reclen: u16,
    pub d_type: u8,
    pub name: Vec<u8>,
}

impl Dirent {
    /// The stored name bytes, without the terminator.
    pub open spec fn spec_name(self) -> Seq<u8> {
        self.name@
    }

    /// An empty entry.
    pub fn empty() -> (r: Dirent)
        ensures
            r.d_ino == 0 && r.d_off == 0 && r.d_type == 0 && r.d_reclen == 0,
            r.spec_name().len() == 0,
    {
        Dirent { d_ino: 0, d_off: 0, d_reclen: 0, d_type: 0, name: Vec::new() }
    }

    /// Fill an entry in place.
    pub fn init(&mut self, name: &Vec<u8>, offset: isize, first_clu: usize, file_type: FileType)
        requires
            name@.len() < NAME_LIMIT,
        ensures
            final(self).d_ino == first_clu,
            final(self).d_off == offset,
            final(self).d_type == file_type.spec_u8(),
            final(self).d_reclen == old(self).d_reclen,
            final(self).spec_name() == name@,
    {
        self.d_ino = first_clu;
        self.d_off = offset;
        self.d_type = file_type.to_u8();
        self.fill_name(name);
    }

    /// A filled entry.
    pub fn new(name: &Vec<u8>, offset: isize, first_clu: usize, file_type: FileType) -> (r: Dirent)
        requires
            name@.len() < NAME_LIMIT,
        ensures
            r.d_ino == first_clu,
            r.d_off == offset,
            r.d_type == file_type.spec_u8(),
            r.d_reclen == 0,
            r.spec_name() == name@,
    {
        let mut dirent = Dirent::empty();
        dirent.init(name, offset, first_clu, file_type);
        dirent
    }

    /// Store the name. Names at the limit or beyond are rejected by the
    /// callers' precondition: the record has no room for them.
    fn fill_name(&mut self, name: &Vec<u8>)
        requires
            name@.len() < NAME_LIMIT,
        ensures
            final(self).spec_name() == name@,
            final(self).d_ino == old(self).d_ino,
            final(self).d_off == old(self).d_off,
            final(self).d_type == old(self).d_type,
            final(self).d_reclen == old(self).d_reclen,
    {
        let mut buf: Vec<u8> = Vec::new();
        let n = name.len();
        let mut i: usize = 0;
        while i < n
            invariant
                i <= n,
                n == name@.len(),
                buf@ == name@.take(i as int),
            decreases n - i,
        {
            buf.push(name[i]);
            proof {
                assert(buf@ =~= name@.take(i + 1));
            }
            i += 1;
        }
        proof {
            assert(buf@ =~= name@);
        }
        self.name = buf;
    }

    /// The stored name.
    pub fn name(&self) -> (r: &Vec<u8>)
        ensures
            r@ == self.spec_name(),
    {
        &self.name
    }

    /// Name bytes and file-mode word of the entry.
    pub fn info(&self) -> (r: (Vec<u8>, u32))
        ensures
            r.0@ == self.spec_name(),
            r.1 == FileType::spec_from_u8(self.d_type).spec_file_mode(),
    {
        let mut buf: Vec<u8> = Vec::new();
        let n = self.name.len();
        let mut i: usize = 0;
        while i < n
            invariant
                i <= n,
                n == self.name@.len(),
                buf@ == self.name@.take(i as int),
            decreases n - i,
        {
            buf.push(self.name[i]);
            proof {
                assert(buf@ =~= self.name@.take(i + 1));
            }
            i += 1;
        }
        proof {
            assert(buf@ =~= self.name@);
        }
        let mode = FileType::from_u8(self.d_type).to_file_mode();
        (buf, mode)
    }
}

} // verus!
