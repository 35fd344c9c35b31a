//! Open flags of a file descriptor, kept as a plain bit set.
use vstd::prelude::*;

verus! {

pub const O_RDONLY: u32 = 0;

pub const O_WRONLY: u32 = 1;

pub const O_RDWR: u32 = 2;

pub const O_CREATE: u32 = 64;

pub const O_EXCL: u32 = 128;

pub const O_TRUNC: u32 = 512;

pub const O_APPEND: u32 = 1024;

pub const O_NONBLOCK: u32 = 2048;

pub const O_LARGEFILE: u32 = 32768;

pub const O_DIRECTROY: u32 = 65536;

pub const O_NOFOLLOW: u32 = 131072;

pub const O_CLOEXEC: u32 = 524288;

/// A set of open flags.
#[derive(Clone, Copy, Debug, PartialEq, Eq, Structural)]
pub struct OpenFlags {
    pub bits: u32,
}

impl OpenFlags {
    pub fn from_bits(bits: u32) -> (r: OpenFlags)
        ensures
            r.bits == bits,
    {
        OpenFlags { bits }
    }

    /// Whether every bit of `other` is set here. A flag of value zero is
    /// contained in every set.
    pub fn contains(&self, other: u32) -> (r: bool)
        ensures
            r == (self.bits & other == other),
    {
        self.bits & other == other
    }

    /// Reading is allowed: the read-only flag has value zero, so every
    /// flag set allows reading unless write-only filtering happens above.
    pub fn is_readable(&self) -> (r: bool)
        ensures
            r == (self.bits & O_RDONLY == O_RDONLY || self.bits & O_RDWR == O_RDWR),
    {
        self.contains(O_RDONLY) || self.contains(O_RDWR)
    }

    /// Writing is allowed.
    pub fn is_writable(&self) -> (r: bool)
        ensures
            r == (self.bits & O_WRONLY == O_WRONLY || self.bits & O_RDWR == O_RDWR),
    {
        self.contains(O_WRONLY) || self.contains(O_RDWR)
    }
}

} // verus!
