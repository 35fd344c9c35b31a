//! System identification and resource-usage records.
use vstd::prelude::*;
use vstd::string::StringSliceAdditionalSpecFns;

verus! {

/// The system identification strings, each a zero-padded byte row.
pub struct Utsname {
    pub sysname: Vec<u8>,
    pub nodename: Vec<u8>,
    pub release: Vec<u8>,
    pub version: Vec<u8>,
    pub machine: Vec<u8>,
    pub domainname: Vec<u8>,
}

impl Utsname {
    /// The fixed identification this kernel reports.
    pub fn new() -> (r: Utsname)
        ensures
            r.sysname@.len() == 65,
            r.nodename@.len() == 65,
            r.release@.len() == 65,
            r.version@.len() == 65,
            r.machine@.len() == 65,
            r.domainname@.len() == 65,
    {
        Utsname {
            sysname: Utsname::str2u8("Linux"),
            nodename: Utsname::str2u8("ubuntu"),
            release: Utsname::str2u8("5.0"),
            version: Utsname::str2u8("5.13"),
            machine: Utsname::str2u8("riscv64"),
            domainname: Utsname::str2u8("Jeremy_test"),
        }
    }

    /// A 65-byte row holding the string's bytes, zero-padded; an
    /// over-long string is truncated.
    pub fn str2u8(s: &str) -> (r: Vec<u8>)
        ensures
            r@.len() == 65,
            forall|i: int|
                0 <= i < s.spec_bytes().len() && i < 65 ==> r@[i] == s.spec_bytes()[i],
            forall|i: int| s.spec_bytes().len() <= i < 65 ==> r@[i] == 0u8,
    {
        let bytes = s.as_bytes();
        let n = bytes.len();
        let lim = if n < 65 {
            n
        } else {
            65
        };
        let mut row: Vec<u8> = Vec::new();
        let mut i: usize = 0;
        while i < lim
            invariant
                i <= lim,
                lim <= 65,
                lim <= bytes@.len(),
                bytes@ == s.spec_bytes(),
                row@.len() == i,
                forall|k: int| 0 <= k < i ==> row@[k] == bytes@[k],
            decreases lim - i,
        {
            row.push(bytes[i]);
            i += 1;
        }
        while i < 65
            invariant
                i <= 65,
                lim <= i,
                lim == if s.spec_bytes().len() < 65 {
                    s.spec_bytes().len() as int
                } else {
                    65
                },
                row@.len() == i,
                forall|k: int| 0 <= k < lim ==> row@[k] == s.spec_bytes()[k],
                forall|k: int| lim <= k < i ==> row@[k] == 0u8,
            decreases 65 - i,
        {
            row.push(0u8);
            i += 1;
        }
        row
    }
}

/// Resource usage of one task; only the running times are maintained.
#[derive(Clone, Copy, Debug)]
pub struct RUsage {
    pub ru_utime_usec: u64,
    pub ru_stime_usec: u64,
    pub ru_maxrss: isize,
    pub ru_minflt: isize,
    pub ru_majflt: isize,
    pub ru_nvcsw: isize,
    pub ru_nivcsw: isize,
}

impl RUsage {
    pub fn new() -> (r: RUsage)
        ensures
            r.ru_utime_usec == 0 && r.ru_stime_usec == 0,
            r.ru_maxrss == 0 && r.ru_minflt == 0 && r.ru_majflt == 0,
    {
        RUsage {
            ru_utime_usec: 0,
            ru_stime_usec: 0,
            ru_maxrss: 0,
            ru_minflt: 0,
            ru_majflt: 0,
            ru_nvcsw: 0,
            ru_nivcsw: 0,
        }
    }
}

} // verus!
