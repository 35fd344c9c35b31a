//! Per-address-space page table.
//!
//! A multi-level radix structure mapping virtual page numbers to physical
//! page numbers plus permission and copy-on-write flags. The table is walked
//! in 9-bit index steps; an intermediate table is identified by the index
//! prefix it covers and is itself a physical frame allocated through the
//! frame allocator, owned by the page table and released only when the
//! whole table is torn down.
//!
//! The abstract view of a table is the finite map from mapped virtual page
//! numbers to their entries; every operation's contract is stated over it.
use vstd::prelude::*;

use crate::address::{PhysPageNum, VirtPageNum};
use crate::frame_allocator::{alloc_frame, dealloc_frame, FrameTracker, StackFrameAllocator};

verus! {

/// Entries per radix-tree node: one 9-bit index step.
pub const ENTRIES_PER_TABLE: usize = 512;

/// Flags of one page table entry. `cow` is a software-defined flag distinct
/// from the hardware-enforced permission bits; it marks a frame shared
/// copy-on-write and is bookkeeping for the fault resolver only.
#[derive(Clone, Copy, Debug, PartialEq, Eq, Structural)]
pub struct PTEFlags {
    /// Entry is valid.
    pub v: bool,
    /// Page is readable.
    pub r: bool,
    /// Page is writable.
    pub w: bool,
    /// Page is executable.
    pub x: bool,
    /// Page is accessible in user mode.
    pub u: bool,
    /// Frame is shared copy-on-write; never set together with `w`.
    pub cow: bool,
}

impl PTEFlags {
    /// Flags with every bit clear.
    pub fn empty() -> (r: PTEFlags)
        ensures
            r == (PTEFlags { v: false, r: false, w: false, x: false, u: false, cow: false }),
    {
        PTEFlags { v: false, r: false, w: false, x: false, u: false, cow: false }
    }

    /// These flags with the write bit cleared.
    pub fn without_w(&self) -> (r: PTEFlags)
        ensures
            r == (PTEFlags { w: false, ..*self }),
    {
        PTEFlags { w: false, ..*self }
    }

    /// These flags with the write bit set.
    pub fn with_w(&self) -> (r: PTEFlags)
        ensures
            r == (PTEFlags { w: true, ..*self }),
    {
        PTEFlags { w: true, ..*self }
    }
}

/// One page table entry: a target frame and its flags.
#[derive(Clone, Copy, Debug, PartialEq, Eq, Structural)]
pub struct PageTableEntry {
    pub ppn: PhysPageNum,
    pub flags: PTEFlags,
}

impl PageTableEntry {
    pub fn new(ppn: PhysPageNum, flags: PTEFlags) -> (r: Self)
        ensures
            r == (PageTableEntry { ppn, flags }),
    {
        PageTableEntry { ppn, flags }
    }

    /// Target physical page.
    pub fn ppn(&self) -> (r: PhysPageNum)
        ensures
            r == self.ppn,
    {
        self.ppn
    }

    /// All flags of the entry.
    pub fn flags(&self) -> (r: PTEFlags)
        ensures
            r == self.flags,
    {
        self.flags
    }

    /// Whether the entry is valid.
    pub fn is_valid(&self) -> (r: bool)
        ensures
            r == self.flags.v,
    {
        self.flags.v
    }

    /// Whether the entry is marked copy-on-write.
    pub fn is_cow(&self) -> (r: bool)
        ensures
            r == self.flags.cow,
    {
        self.flags.cow
    }

    /// Whether the entry permits writes.
    pub fn writable(&self) -> (r: bool)
        ensures
            r == self.flags.w,
    {
        self.flags.w
    }
}

/// The finite map described by a sequence of key-distinct leaf entries.
pub closed spec fn entries_map(s: Seq<(VirtPageNum, PageTableEntry)>) -> Map<
    VirtPageNum,
    PageTableEntry,
>
    decreases s.len(),
{
    if s.len() == 0 {
        Map::empty()
    } else {
        entries_map(s.drop_last()).insert(s.last().0, s.last().1)
    }
}

/// No two entries of `s` share a key.
pub open spec fn keys_distinct(s: Seq<(VirtPageNum, PageTableEntry)>) -> bool {
    forall|i: int, j: int| 0 <= i < j < s.len() ==> (#[trigger] s[i]).0 != (#[trigger] s[j]).0
}

proof fn lemma_entries_map_domain(s: Seq<(VirtPageNum, PageTableEntry)>, k: VirtPageNum)
    ensures
        entries_map(s).dom().contains(k) <==> exists|i: int| 0 <= i < s.len() && (#[trigger] s[i]).0 == k,
    decreases s.len(),
{
    if s.len() > 0 {
        lemma_entries_map_domain(s.drop_last(), k);
        if s.last().0 == k {
            assert(s[s.len() - 1].0 == k);
        } else {
            if entries_map(s).dom().contains(k) {
                let i = choose|i: int| 0 <= i < s.drop_last().len() && (#[trigger] s.drop_last()[i]).0 == k;
                assert(s[i].0 == k);
            }
            if exists|i: int| 0 <= i < s.len() && (#[trigger] s[i]).0 == k {
                let i = choose|i: int| 0 <= i < s.len() && (#[trigger] s[i]).0 == k;
                assert(s.drop_last()[i].0 == k);
            }
        }
    }
}

proof fn lemma_entries_map_value(s: Seq<(VirtPageNum, PageTableEntry)>, i: int)
    requires
        keys_distinct(s),
        0 <= i < s.len(),
    ensures
        entries_map(s).dom().contains(s[i].0),
        entries_map(s)[s[i].0] == s[i].1,
    decreases s.len(),
{
    lemma_entries_map_domain(s, s[i].0);
    if i == s.len() - 1 {
    } else {
        assert(s.drop_last()[i] == s[i]);
        lemma_entries_map_value(s.drop_last(), i);
        assert(s.last().0 != s[i].0);
    }
}

proof fn lemma_entries_map_push(
    s: Seq<(VirtPageNum, PageTableEntry)>,
    k: VirtPageNum,
    v: PageTableEntry,
)
    ensures
        entries_map(s.push((k, v))) == entries_map(s).insert(k, v),
{
    assert(s.push((k, v)).drop_last() =~= s);
}

proof fn lemma_entries_map_update(s: Seq<(VirtPageNum, PageTableEntry)>, i: int, v: PageTableEntry)
    requires
        keys_distinct(s),
        0 <= i < s.len(),
    ensures
        entries_map(s.update(i, (s[i].0, v))) == entries_map(s).insert(s[i].0, v),
    decreases s.len(),
{
    let k = s[i].0;
    let t = s.update(i, (k, v));
    if i == s.len() - 1 {
        assert(t.drop_last() =~= s.drop_last());
        assert(entries_map(t) == entries_map(s.drop_last()).insert(k, v));
        assert(entries_map(s).insert(k, v) == entries_map(s.drop_last()).insert(k, s[i].1).insert(
            k,
            v,
        ));
        assert(entries_map(s.drop_last()).insert(k, s[i].1).insert(k, v) =~= entries_map(
            s.drop_last(),
        ).insert(k, v));
    } else {
        assert(t.drop_last() =~= s.drop_last().update(i, (k, v)));
        assert(s.drop_last()[i] == s[i]);
        lemma_entries_map_update(s.drop_last(), i, v);
        assert(entries_map(t) == entries_map(s.drop_last()).insert(k, v).insert(
            s.last().0,
            s.last().1,
        ));
        assert(s.last().0 != k);
        assert(entries_map(s.drop_last()).insert(k, v).insert(s.last().0, s.last().1)
            =~= entries_map(s.drop_last()).insert(s.last().0, s.last().1).insert(k, v));
    }
}

proof fn lemma_entries_map_remove(s: Seq<(VirtPageNum, PageTableEntry)>, i: int)
    requires
        keys_distinct(s),
        0 <= i < s.len(),
    ensures
        entries_map(s.remove(i)) == entries_map(s).remove(s[i].0),
    decreases s.len(),
{
    let k = s[i].0;
    if i == s.len() - 1 {
        assert(s.remove(i) =~= s.drop_last());
        lemma_entries_map_domain(s.drop_last(), k);
        assert(forall|j: int|
            0 <= j < s.drop_last().len() ==> (#[trigger] s.drop_last()[j]).0 == s[j].0);
        assert(!entries_map(s.drop_last()).dom().contains(k));
        assert(entries_map(s.drop_last()).insert(k, s[i].1).remove(k) =~= entries_map(
            s.drop_last(),
        ));
    } else {
        assert(s.remove(i).drop_last() =~= s.drop_last().remove(i));
        assert(s.drop_last()[i] == s[i]);
        lemma_entries_map_remove(s.drop_last(), i);
        assert(entries_map(s.remove(i)) == entries_map(s.drop_last()).remove(k).insert(
            s.last().0,
            s.last().1,
        ));
        assert(s.last().0 != k);
        assert(entries_map(s.drop_last()).remove(k).insert(s.last().0, s.last().1) =~= entries_map(
            s.drop_last(),
        ).insert(s.last().0, s.last().1).remove(k));
    }
}

/// A multi-level page table: the root frame, the intermediate table nodes
/// keyed by the index prefix they cover, and the leaf entries.
pub struct PageTable {
    root_ppn: PhysPageNum,
    /// Index prefixes (vpn / 512²) of the present first-level tables.
    l1_nodes: Vec<usize>,
    /// Index prefixes (vpn / 512) of the present second-level tables.
    l2_nodes: Vec<usize>,
    /// Leaf entries, one per mapped page, keys distinct.
    entries: Vec<(VirtPageNum, PageTableEntry)>,
    /// Root and intermediate-table frames owned by this table.
    frames: Vec<FrameTracker>,
}

impl PageTable {
    /// The mapping this table encodes.
    pub closed spec fn view(self) -> Map<VirtPageNum, PageTableEntry> {
        entries_map(self.entries@)
    }

    /// Physical page number of the root table.
    pub closed spec fn spec_root(self) -> PhysPageNum {
        self.root_ppn
    }

    /// Physical frames that hold the table itself (root and nodes).
    pub closed spec fn node_ppns(self) -> Seq<PhysPageNum> {
        self.frames@.map(|i: int, f: FrameTracker| f.ppn)
    }

    pub closed spec fn wf(self) -> bool {
        &&& keys_distinct(self.entries@)
        &&& forall|i: int, j: int|
            0 <= i < j < self.l1_nodes@.len() ==> #[trigger] self.l1_nodes@[i]
                != #[trigger] self.l1_nodes@[j]
        &&& forall|i: int, j: int|
            0 <= i < j < self.l2_nodes@.len() ==> #[trigger] self.l2_nodes@[i]
                != #[trigger] self.l2_nodes@[j]
        &&& self.frames@.len() == 1 + self.l1_nodes@.len() + self.l2_nodes@.len()
        &&& self.frames@.len() >= 1 && self.frames@[0].ppn == self.root_ppn
        &&& forall|i: int, j: int|
            0 <= i < j < self.frames@.len() ==> (#[trigger] self.frames@[i]).ppn
                != (#[trigger] self.frames@[j]).ppn
    }

    /// What holds mapped: a lookup of `vpn` in the table's view.
    pub open spec fn spec_translate(self, vpn: VirtPageNum) -> Option<PageTableEntry> {
        if self.view().dom().contains(vpn) {
            Some(self.view()[vpn])
        } else {
            None
        }
    }

    /// A new table with an empty mapping; allocates the root frame.
    pub fn new(a: &mut StackFrameAllocator) -> (r: PageTable)
        requires
            old(a).wf(),
            old(a).free_frames() >= 1,
        ensures
            r.wf(),
            r.view() == Map::<VirtPageNum, PageTableEntry>::empty(),
            r.node_ppns().len() == 1,
            r.node_ppns()[0] == r.spec_root(),
            final(a).wf(),
            final(a).spec_base() == old(a).spec_base(),
            final(a).spec_end() == old(a).spec_end(),
            final(a).free_frames() == old(a).free_frames() - 1,
            !old(a).has_ref(r.spec_root()) && final(a).count(r.spec_root()) == 1,
            old(a).manages(r.spec_root()),
            forall|p: PhysPageNum| #[trigger] final(a).count(p) >= old(a).count(p),
            forall|p: PhysPageNum|
                p != r.spec_root() ==> #[trigger] final(a).count(p) == old(a).count(p),
            forall|p: PhysPageNum|
                old(a).manages(p) && p != r.spec_root() ==> #[trigger] final(a).page(p) == old(
                    a,
                ).page(p),
    {
        let frame = alloc_frame(a).unwrap();
        let root_ppn = frame.ppn;
        let mut frames: Vec<FrameTracker> = Vec::new();
        frames.push(frame);
        let pt = PageTable {
            root_ppn,
            l1_nodes: Vec::new(),
            l2_nodes: Vec::new(),
            entries: Vec::new(),
            frames,
        };
        pt
    }

    /// Opaque identifier of the root table for the hardware translation
    /// mechanism: the root table's physical page number.
    pub fn token(&self) -> (r: usize)
        ensures
            r == self.spec_root().0,
    {
        self.root_ppn.0
    }

    /// Index of `vpn` among the leaf entries, if present.
    fn find_idx(&self, vpn: VirtPageNum) -> (r: Option<usize>)
        requires
            self.wf(),
        ensures
            match r {
                Some(i) => i < self.entries@.len() && self.entries@[i as int].0 == vpn
                    && self.view().dom().contains(vpn) && self.view()[vpn]
                    == self.entries@[i as int].1,
                None => !self.view().dom().contains(vpn),
            },
    {
        let n = self.entries.len();
        let mut i: usize = 0;
        while i < n
            invariant
                i <= n,
                n == self.entries@.len(),
                self.wf(),
                forall|j: int| 0 <= j < i ==> (#[trigger] self.entries@[j]).0 != vpn,
            decreases n - i,
        {
            if self.entries[i].0 == vpn {
                proof {
                    lemma_entries_map_value(self.entries@, i as int);
                }
                return Some(i);
            }
            i += 1;
        }
        proof {
            lemma_entries_map_domain(self.entries@, vpn);
        }
        None
    }

    /// Look a page up: the entry mapped for `vpn`, if any.
    pub fn translate(&self, vpn: VirtPageNum) -> (r: Option<PageTableEntry>)
        requires
            self.wf(),
        ensures
            r == self.spec_translate(vpn),
    {
        match self.find_idx(vpn) {
            Some(i) => Some(self.entries[i].1),
            None => None,
        }
    }

    /// Whether the prefix list `nodes` holds `key`.
    fn has_node(nodes: &Vec<usize>, key: usize) -> (r: bool)
        ensures
            r == nodes@.contains(key),
    {
        let n = nodes.len();
        let mut i: usize = 0;
        while i < n
            invariant
                i <= n,
                n == nodes@.len(),
                forall|j: int| 0 <= j < i ==> #[trigger] nodes@[j] != key,
            decreases n - i,
        {
            if nodes[i] == key {
                return true;
            }
            i += 1;
        }
        false
    }

    /// Install or overwrite the leaf entry for `vpn`, allocating any
    /// missing intermediate tables on the way down. The installed entry is
    /// valid and carries the given flags.
    pub fn map(&mut self, vpn: VirtPageNum, ppn: PhysPageNum, flags: PTEFlags, a: &mut StackFrameAllocator)
        requires
            old(self).wf(),
            old(a).wf(),
            old(a).free_frames() >= 2,
            forall|i: int|
                0 <= i < old(self).node_ppns().len() ==> old(a).count(
                    #[trigger] old(self).node_ppns()[i],
                ) >= 1,
        ensures
            final(self).wf(),
            final(self).view() == old(self).view().insert(
                vpn,
                PageTableEntry { ppn, flags: PTEFlags { v: true, ..flags } },
            ),
            final(self).spec_root() == old(self).spec_root(),
            final(a).wf(),
            final(a).spec_base() == old(a).spec_base(),
            final(a).spec_end() == old(a).spec_end(),
            final(a).free_frames() >= old(a).free_frames() - 2,
            forall|p: PhysPageNum| #[trigger] final(a).count(p) >= old(a).count(p),
            // intermediate-table frames claimed here were fresh: every
            // already-referenced frame keeps its count and contents
            forall|p: PhysPageNum|
                old(a).has_ref(p) ==> #[trigger] final(a).count(p) == old(a).count(p),
            forall|p: PhysPageNum|
                old(a).manages(p) && old(a).has_ref(p) ==> #[trigger] final(a).page(p) == old(
                    a,
                ).page(p),
            // this table's own frames only grow: the old ones stay in
            // place, and any new intermediate-table frame was fresh
            final(self).node_ppns().len() >= old(self).node_ppns().len(),
            forall|j: int|
                0 <= j < old(self).node_ppns().len() ==> #[trigger] final(self).node_ppns()[j]
                    == old(self).node_ppns()[j],
            forall|j: int|
                old(self).node_ppns().len() <= j < final(self).node_ppns().len() ==> !old(a).has_ref(
                    #[trigger] final(self).node_ppns()[j],
                ) && final(a).count(final(self).node_ppns()[j]) == 1 && final(a).manages(final(self).node_ppns()[j]),
    {
        proof {
            assert(forall|j: int|
                0 <= j < self.frames@.len() ==> (#[trigger] self.frames@[j]).ppn
                    == self.node_ppns()[j]);
            assert(forall|j: int|
                0 <= j < self.frames@.len() ==> a.count((#[trigger] self.frames@[j]).ppn) >= 1);
        }
        let l1_key = vpn.0 / (ENTRIES_PER_TABLE * ENTRIES_PER_TABLE);
        let l2_key = vpn.0 / ENTRIES_PER_TABLE;
        if !Self::has_node(&self.l1_nodes, l1_key) {
            let ghost pre = *a;
            let frame = alloc_frame(a).unwrap();
            proof {
                assert(pre.count(frame.ppn) == 0);
                assert(forall|j: int|
                    0 <= j < self.frames@.len() ==> pre.count((#[trigger] self.frames@[j]).ppn)
                        >= 1);
                assert(forall|j: int|
                    0 <= j < self.frames@.len() ==> (#[trigger] self.frames@[j]).ppn != frame.ppn);
                assert(forall|j: int|
                    0 <= j < self.frames@.len() ==> a.count((#[trigger] self.frames@[j]).ppn)
                        >= 1);
            }
            self.l1_nodes.push(l1_key);
            self.frames.push(frame);
        }
        proof {
            assert(forall|j: int|
                0 <= j < self.frames@.len() ==> (#[trigger] self.frames@[j]).ppn
                    == self.node_ppns()[j]);
            assert(forall|j: int|
                0 <= j < old(self).frames@.len() ==> self.frames@[j] == old(self).frames@[j]);
            assert(forall|j: int|
                old(self).frames@.len() <= j < self.frames@.len() ==> !old(a).has_ref(
                    (#[trigger] self.frames@[j]).ppn,
                ) && a.count(self.frames@[j].ppn) == 1);
        }
        if !Self::has_node(&self.l2_nodes, l2_key) {
            let ghost pre = *a;
            let frame = alloc_frame(a).unwrap();
            proof {
                assert(pre.count(frame.ppn) == 0);
                assert(forall|j: int|
                    0 <= j < self.frames@.len() ==> pre.count((#[trigger] self.frames@[j]).ppn)
                        >= 1);
                assert(forall|j: int|
                    0 <= j < self.frames@.len() ==> (#[trigger] self.frames@[j]).ppn != frame.ppn);
                assert(forall|j: int|
                    0 <= j < self.frames@.len() ==> a.count((#[trigger] self.frames@[j]).ppn)
                        >= 1);
            }
            self.l2_nodes.push(l2_key);
            self.frames.push(frame);
        }
        proof {
            assert(forall|j: int|
                0 <= j < self.frames@.len() ==> (#[trigger] self.frames@[j]).ppn
                    == self.node_ppns()[j]);
            assert(forall|j: int|
                0 <= j < old(self).frames@.len() ==> self.frames@[j] == old(self).frames@[j]);
            assert(forall|j: int|
                old(self).frames@.len() <= j < self.frames@.len() ==> !old(a).has_ref(
                    (#[trigger] self.frames@[j]).ppn,
                ) && a.count(self.frames@[j].ppn) == 1);
        }
        let pte = PageTableEntry { ppn, flags: PTEFlags { v: true, ..flags } };
        match self.find_idx(vpn) {
            Some(i) => {
                proof {
                    lemma_entries_map_update(self.entries@, i as int, pte);
                }
                self.entries[i] = (vpn, pte);
                proof {
                    assert(keys_distinct(self.entries@));
                }
            },
            None => {
                proof {
                    lemma_entries_map_domain(self.entries@, vpn);
                    lemma_entries_map_push(self.entries@, vpn, pte);
                }
                self.entries.push((vpn, pte));
                proof {
                    assert(forall|j: int|
                        0 <= j < self.entries@.len() - 1 ==> (#[trigger] self.entries@[j]).0
                            != vpn);
                    assert(keys_distinct(self.entries@));
                }
            },
        }
    }

    /// Clear the leaf entry for `vpn`. The underlying data frame's
    /// ownership is untouched: the caller drops the owning handle. Clearing
    /// a page with no recorded mapping is a corrupted ownership graph and
    /// is ruled out by the precondition.
    pub fn unmap(&mut self, vpn: VirtPageNum)
        requires
            old(self).wf(),
            old(self).view().dom().contains(vpn),
        ensures
            final(self).wf(),
            final(self).view() == old(self).view().remove(vpn),
            final(self).spec_root() == old(self).spec_root(),
            final(self).node_ppns() == old(self).node_ppns(),
    {
        let i = self.find_idx(vpn).unwrap();
        proof {
            lemma_entries_map_remove(self.entries@, i as int);
        }
        self.entries.remove(i);
    }

    /// Replace the flags of the entry for `vpn`, keeping its target frame.
    pub fn set_flags(&mut self, vpn: VirtPageNum, flags: PTEFlags)
        requires
            old(self).wf(),
            old(self).view().dom().contains(vpn),
        ensures
            final(self).wf(),
            final(self).view() == old(self).view().insert(
                vpn,
                PageTableEntry { ppn: old(self).view()[vpn].ppn, flags },
            ),
            final(self).spec_root() == old(self).spec_root(),
            final(self).node_ppns() == old(self).node_ppns(),
    {
        let i = self.find_idx(vpn).unwrap();
        let ppn = self.entries[i].1.ppn;
        let pte = PageTableEntry { ppn, flags };
        proof {
            lemma_entries_map_update(self.entries@, i as int, pte);
        }
        self.entries[i] = (vpn, pte);
    }

    /// Mark the entry for `vpn` copy-on-write, altering nothing else.
    pub fn set_cow(&mut self, vpn: VirtPageNum)
        requires
            old(self).wf(),
            old(self).view().dom().contains(vpn),
        ensures
            final(self).wf(),
            final(self).view() == old(self).view().insert(
                vpn,
                PageTableEntry {
                    ppn: old(self).view()[vpn].ppn,
                    flags: PTEFlags { cow: true, ..old(self).view()[vpn].flags },
                },
            ),
            final(self).spec_root() == old(self).spec_root(),
            final(self).node_ppns() == old(self).node_ppns(),
    {
        let i = self.find_idx(vpn).unwrap();
        let e = self.entries[i].1;
        let pte = PageTableEntry { ppn: e.ppn, flags: PTEFlags { cow: true, ..e.flags } };
        proof {
            lemma_entries_map_update(self.entries@, i as int, pte);
        }
        self.entries[i] = (vpn, pte);
    }

    /// Clear the copy-on-write mark of the entry for `vpn`.
    pub fn reset_cow(&mut self, vpn: VirtPageNum)
        requires
            old(self).wf(),
            old(self).view().dom().contains(vpn),
        ensures
            final(self).wf(),
            final(self).view() == old(self).view().insert(
                vpn,
                PageTableEntry {
                    ppn: old(self).view()[vpn].ppn,
                    flags: PTEFlags { cow: false, ..old(self).view()[vpn].flags },
                },
            ),
            final(self).spec_root() == old(self).spec_root(),
            final(self).node_ppns() == old(self).node_ppns(),
    {
        let i = self.find_idx(vpn).unwrap();
        let e = self.entries[i].1;
        let pte = PageTableEntry { ppn: e.ppn, flags: PTEFlags { cow: false, ..e.flags } };
        proof {
            lemma_entries_map_update(self.entries@, i as int, pte);
        }
        self.entries[i] = (vpn, pte);
    }

    /// Replace the target of the entry for `vpn` with `ppn` to break a
    /// copy-on-write share: the entry leaves the shared frame `former_ppn`,
    /// becomes writable, loses its copy-on-write mark, and keeps every
    /// other flag.
    pub fn remap_cow(&mut self, vpn: VirtPageNum, ppn: PhysPageNum, former_ppn: PhysPageNum)
        requires
            old(self).wf(),
            old(self).view().dom().contains(vpn),
            old(self).view()[vpn].ppn == former_ppn,
        ensures
            final(self).wf(),
            final(self).view() == old(self).view().insert(
                vpn,
                PageTableEntry {
                    ppn,
                    flags: PTEFlags { w: true, cow: false, ..old(self).view()[vpn].flags },
                },
            ),
            final(self).spec_root() == old(self).spec_root(),
            final(self).node_ppns() == old(self).node_ppns(),
    {
        let i = self.find_idx(vpn).unwrap();
        let e = self.entries[i].1;
        let pte = PageTableEntry {
            ppn,
            flags: PTEFlags { w: true, cow: false, ..e.flags },
        };
        proof {
            lemma_entries_map_update(self.entries@, i as int, pte);
        }
        self.entries[i] = (vpn, pte);
    }

    /// Tear the whole table down: release every frame the table itself
    /// occupies (root and intermediate tables) back to the allocator.
    /// Leaf entries carry no ownership; the data frames they point at are
    /// dropped by whoever owns their handles.
    pub fn release_table_frames(self, a: &mut StackFrameAllocator)
        requires
            self.wf(),
            old(a).wf(),
            forall|i: int|
                0 <= i < self.node_ppns().len() ==> old(a).count(
                    #[trigger] self.node_ppns()[i],
                ) >= 1,
        ensures
            final(a).wf(),
            final(a).spec_base() == old(a).spec_base(),
            final(a).spec_end() == old(a).spec_end(),
            forall|p: PhysPageNum|
                self.node_ppns().contains(p) ==> #[trigger] final(a).count(p) == old(a).count(p)
                    - 1,
            forall|p: PhysPageNum|
                !self.node_ppns().contains(p) ==> #[trigger] final(a).count(p) == old(a).count(p),
            forall|p: PhysPageNum|
                old(a).manages(p) ==> #[trigger] final(a).page(p) == old(a).page(p),
    {
        proof {
            assert(forall|j: int|
                0 <= j < self.frames@.len() ==> (#[trigger] self.frames@[j]).ppn
                    == self.node_ppns()[j]);
        }
        let n = self.frames.len();
        let mut i: usize = 0;
        while i < n
            invariant
                i <= n,
                n == self.frames@.len(),
                self.wf(),
                a.wf(),
                a.spec_base() == old(a).spec_base(),
                a.spec_end() == old(a).spec_end(),
                forall|j: int| i <= j < n ==> a.count((#[trigger] self.frames@[j]).ppn) >= 1,
                forall|j: int|
                    0 <= j < i ==> a.count((#[trigger] self.frames@[j]).ppn) == old(a).count(
                        self.frames@[j].ppn,
                    ) - 1,
                forall|p: PhysPageNum|
                    !self.node_ppns().contains(p) ==> #[trigger] a.count(p) == old(a).count(p),
                forall|j: int|
                    i <= j < n ==> a.count((#[trigger] self.frames@[j]).ppn) == old(a).count(
                        self.frames@[j].ppn,
                    ),
                forall|p: PhysPageNum|
                    old(a).manages(p) ==> #[trigger] a.page(p) == old(a).page(p),
            decreases n - i,
        {
            let ppn = self.frames[i].ppn;
            proof {
                assert(self.node_ppns()[i as int] == self.frames@[i as int].ppn);
            }
            let ghost aprev = *a;
            dealloc_frame(a, ppn);
            proof {
                assert(forall|p: PhysPageNum| aprev.manages(p) == old(a).manages(p));
                assert(forall|p: PhysPageNum|
                    old(a).manages(p) ==> #[trigger] a.page(p) == aprev.page(p));
            }
            i += 1;
        }
        proof {
            assert(forall|p: PhysPageNum|
                self.node_ppns().contains(p) ==> exists|j: int|
                    0 <= j < n && (#[trigger] self.frames@[j]).ppn == p);
        }
    }
}

} // verus!
