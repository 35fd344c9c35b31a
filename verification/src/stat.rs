//! File status records handed across the kernel's file-system boundary:
//! plain bookkeeping values, filled in by whoever owns the underlying
//! inode.
use vstd::prelude::*;

verus! {

pub const S_IFDIR: u32 = 0o0040000;

pub const S_IFCHR: u32 = 0o0020000;

pub const S_IFBLK: u32 = 0o0060000;

pub const S_IFREG: u32 = 0o0100000;

pub const S_IFIFO: u32 = 0o0010000;

pub const S_IFLNK: u32 = 0o0120000;

pub const S_IFSOCK: u32 = 0o0140000;

/// One file's status record.
#[derive(Clone, Copy, Debug)]
pub struct Kstat {
    pub st_dev: u64,
    pub st_ino: u64,
    pub st_mode: u32,
    pub st_nlink: u32,
    pub st_uid: u32,
    pub st_gid: u32,
    pub st_rdev: u64,
    pub st_size: i64,
    pub st_blksize: i32,
    pub st_blocks: u64,
    pub st_atime_sec: i64,
    pub st_atime_nsec: i64,
    pub st_mtime_sec: i64,
    pub st_mtime_nsec: i64,
    pub st_ctime_sec: i64,
    pub st_ctime_nsec: i64,
}

impl Kstat {
    /// An all-zero record.
    pub fn empty() -> (r: Kstat)
        ensures
            r.st_ino == 0 && r.st_mode == 0 && r.st_nlink == 0 && r.st_size == 0,
    {
        Kstat {
            st_dev: 0,
            st_ino: 0,
            st_mode: 0,
            st_nlink: 0,
            st_uid: 0,
            st_gid: 0,
            st_rdev: 0,
            st_size: 0,
            st_blksize: 0,
            st_blocks: 0,
            st_atime_sec: 0,
            st_atime_nsec: 0,
            st_mtime_sec: 0,
            st_mtime_nsec: 0,
            st_ctime_sec: 0,
            st_ctime_nsec: 0,
        }
    }

    /// Fill the fields an inode owner reports; the link count becomes 1.
    pub fn init(
        &mut self,
        st_size: i64,
        st_blksize: i32,
        st_blocks: u64,
        st_mode: u32,
        st_ino: u64,
        st_atime_sec: i64,
        st_mtime_sec: i64,
        st_ctime_sec: i64,
    )
        ensures
            final(self).st_nlink == 1,
            final(self).st_size == st_size,
            final(self).st_blksize == st_blksize,
            final(self).st_blocks == st_blocks,
            final(self).st_mode == st_mode,
            final(self).st_ino == st_ino,
            final(self).st_atime_sec == st_atime_sec,
            final(self).st_mtime_sec == st_mtime_sec,
            final(self).st_ctime_sec == st_ctime_sec,
            final(self).st_dev == old(self).st_dev,
    {
        self.st_nlink = 1;
        self.st_ino = st_ino;
        self.st_size = st_size;
        self.st_blksize = st_blksize;
        self.st_blocks = st_blocks;
        self.st_mode = st_mode;
        self.st_atime_sec = st_atime_sec;
        self.st_mtime_sec = st_mtime_sec;
        self.st_ctime_sec = st_ctime_sec;
    }
}

/// Access, modification and change times of one file.
#[derive(Clone, Copy, Debug)]
pub struct TimeInfo {
    pub atime: u64,
    pub mtime: u64,
    pub ctime: u64,
}

impl TimeInfo {
    pub fn empty() -> (r: TimeInfo)
        ensures
            r.atime == 0 && r.mtime == 0 && r.ctime == 0,
    {
        TimeInfo { atime: 0, mtime: 0, ctime: 0 }
    }
}

/// A file system's static self-description.
#[derive(Clone, Copy, Debug)]
pub struct Statfs {
    pub f_type: u64,
    pub f_bsize: u64,
    pub f_blocks: u64,
    pub f_bfree: u64,
    pub f_bavail: u64,
    pub f_files: u64,
    pub f_ffree: u64,
    pub f_fsid: u64,
    pub f_namelen: u64,
    pub f_frsize: u64,
    pub f_flag: u64,
}

impl Statfs {
    /// The fixed description this kernel reports.
    pub fn new() -> (r: Statfs)
        ensures
            r.f_type == 1 && r.f_bsize == 512 && r.f_frsize == 4096,
    {
        Statfs {
            f_type: 1,
            f_bsize: 512,
            f_blocks: 12345,
            f_bfree: 1234,
            f_bavail: 123,
            f_files: 1000,
            f_ffree: 100,
            f_fsid: 1,
            f_namelen: 123,
            f_frsize: 4096,
            f_flag: 123,
        }
    }
}

/// An inode's bookkeeping times.
#[derive(Clone, Copy, Debug)]
pub struct InodeTime {
    create_time: u64,
    access_time: u64,
    modify_time: u64,
}

impl InodeTime {
    pub fn new() -> (r: InodeTime)
        ensures
            r.spec_create_time() == 0 && r.spec_access_time() == 0 && r.spec_modify_time() == 0,
    {
        InodeTime { create_time: 0, access_time: 0, modify_time: 0 }
    }

    pub closed spec fn spec_create_time(self) -> u64 {
        self.create_time
    }

    pub closed spec fn spec_access_time(self) -> u64 {
        self.access_time
    }

    pub closed spec fn spec_modify_time(self) -> u64 {
        self.modify_time
    }

    /// Set the inode time's create time.
    pub fn set_create_time(&mut self, create_time: u64)
        ensures
            final(self).spec_create_time() == create_time,
            final(self).spec_access_time() == old(self).spec_access_time(),
            final(self).spec_modify_time() == old(self).spec_modify_time(),
    {
        self.create_time = create_time;
    }

    /// Get a reference to the inode time's create time.
    pub fn create_time(&self) -> (r: &u64)
        ensures
            r == self.spec_create_time(),
    {
        &self.create_time
    }

    /// Set the inode time's access time.
    pub fn set_access_time(&mut self, access_time: u64)
        ensures
            final(self).spec_access_time() == access_time,
            final(self).spec_create_time() == old(self).spec_create_time(),
            final(self).spec_modify_time() == old(self).spec_modify_time(),
    {
        self.access_time = access_time;
    }

    /// Get a reference to the inode time's access time.
    pub fn access_time(&self) -> (r: &u64)
        ensures
            r == self.spec_access_time(),
    {
        &self.access_time
    }

    /// Set the inode time's modify time.
    pub fn set_modify_time(&mut self, modify_time: u64)
        ensures
            final(self).spec_modify_time() == modify_time,
            final(self).spec_create_time() == old(self).spec_create_time(),
            final(self).spec_access_time() == old(self).spec_access_time(),
    {
        self.modify_time = modify_time;
    }

    /// Get a reference to the inode time's modify time.
    pub fn modify_time(&self) -> (r: &u64)
        ensures
            r == self.spec_modify_time(),
    {
        &self.modify_time
    }
}

} // verus!
