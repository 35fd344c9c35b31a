//! Character and block device endpoints of the device file system. Each
//! carries the inode number its directory entry shows; the data paths
//! that can be computed here (the zero source, the null sink) are.
use vstd::prelude::*;

verus! {

/// Shared state of a plain device node with no behavior of its own.
#[derive(Clone, Copy, Debug)]
pub struct DevFileInner {
    pub fid: usize,
}

impl DevFileInner {
    pub fn new(fid: usize) -> (r: DevFileInner)
        ensures
            r.fid == fid,
    {
        DevFileInner { fid }
    }
}

/// The real-time clock node.
#[derive(Clone, Copy, Debug)]
pub struct Rtc {
    pub fid: usize,
}

impl Rtc {
    pub fn new(fid: usize) -> (r: Rtc)
        ensures
            r.fid == fid,
    {
        Rtc { fid }
    }
}

/// The discarding sink: writes succeed whole and store nothing.
#[derive(Clone, Copy, Debug)]
pub struct Null {
    pub fid: usize,
}

impl Null {
    pub fn new(fid: usize) -> (r: Null)
        ensures
            r.fid == fid,
    {
        Null { fid }
    }

    /// Accept the whole buffer, discarding it.
    pub fn write(&self, data: &Vec<u8>) -> (r: usize)
        ensures
            r == data@.len(),
    {
        data.len()
    }
}

/// The second disk partition node.
#[derive(Clone, Copy, Debug)]
pub struct SDA2 {
    pub fid: usize,
}

impl SDA2 {
    pub fn new(fid: usize) -> (r: SDA2)
        ensures
            r.fid == fid,
    {
        SDA2 { fid }
    }
}

/// The terminal node.
#[derive(Clone, Copy, Debug)]
pub struct TTY {
    pub fid: usize,
}

impl TTY {
    pub fn new(fid: usize) -> (r: TTY)
        ensures
            r.fid == fid,
    {
        TTY { fid }
    }
}

/// The zero source: reads of any length return zero bytes.
#[derive(Clone, Copy, Debug)]
pub struct Zero {
    pub fid: usize,
}

impl Zero {
    pub fn new(fid: usize) -> (r: Zero)
        ensures
            r.fid == fid,
    {
        Zero { fid }
    }

    /// `len` zero bytes, whatever the offset.
    pub fn read(&self, _offset: usize, len: usize) -> (r: Vec<u8>)
        ensures
            r@.len() == len,
            forall|i: int| 0 <= i < len ==> r@[i] == 0u8,
    {
        let mut zero: Vec<u8> = Vec::new();
        let mut i: usize = 0;
        while i < len
            invariant
                i <= len,
                zero@.len() == i,
                forall|k: int| 0 <= k < i ==> zero@[k] == 0u8,
            decreases len - i,
        {
            zero.push(0u8);
            i += 1;
        }
        zero
    }
}

/// The standard input endpoint.
#[derive(Clone, Copy, Debug)]
pub struct Stdin {
    pub fid: usize,
}

impl Stdin {
    pub fn new(fid: usize) -> (r: Stdin)
        ensures
            r.fid == fid,
    {
        Stdin { fid }
    }
}

} // verus!
