//! The page table of an address space: three levels of 512 slots each.
//!
//! A page number is split into three indices of nine bits. The walk takes
//! the first index at the root, the second at the table it finds there and
//! the third at the table below, where the entry stands. A slot that is
//! empty at any level ends the walk: the page is unmapped.

use vstd::prelude::*;
use crate::config::VPN_COUNT;
use crate::mm::address::{PhysPageNum, VirtPageNum};

verus! {

/// Slots of a table at every level.
pub const FANOUT: usize = 512;

/// What may be done with a page.
#[derive(Clone, Copy, Debug, PartialEq, Eq, Structural)]
pub struct MapPermission {
    /// The page may be read.
    pub r: bool,
    /// The page may be written.
    pub w: bool,
    /// Instructions may be fetched from the page.
    pub x: bool,
    /// User mode may use the page.
    pub u: bool,
}

impl MapPermission {
    /// Every right that `need` holds is held by `self`.
    pub open spec fn spec_allows(self, need: MapPermission) -> bool {
        &&& need.r ==> self.r
        &&& need.w ==> self.w
        &&& need.x ==> self.x
        &&& need.u ==> self.u
    }

    /// Every right that `need` holds is held by `self`.
    #[verifier::when_used_as_spec(spec_allows)]
    pub fn allows(self, need: MapPermission) -> (yes: bool)
        ensures
            yes == self.spec_allows(need),
    {
        (!need.r || self.r) && (!need.w || self.w) && (!need.x || self.x) && (!need.u || self.u)
    }
}

/// The entry of a mapped page: its frame and what may be done with it.
#[derive(Clone, Copy, Debug, PartialEq, Eq, Structural)]
pub struct PageTableEntry {
    /// The frame behind the page.
    pub ppn: PhysPageNum,
    /// What may be done with the page.
    pub perm: MapPermission,
}

/// A table of the last level: entries of pages.
struct LeafTable {
    slots: Vec<Option<PageTableEntry>>,
}

/// A table of the middle level.
struct MidTable {
    slots: Vec<Option<LeafTable>>,
}

/// A page table, owned by one address space.
pub struct PageTable {
    slots: Vec<Option<MidTable>>,
}

impl LeafTable {
    spec fn wf(&self) -> bool {
        self.slots@.len() == FANOUT
    }

    spec fn lookup(&self, i0: int) -> Option<PageTableEntry> {
        self.slots@[i0]
    }

    fn new() -> (table: Self)
        ensures
            table.wf(),
            forall|i0: int| 0 <= i0 < FANOUT ==> table.lookup(i0) is None,
    {
        let mut slots: Vec<Option<PageTableEntry>> = Vec::new();
        let mut i: usize = 0;
        while i < FANOUT
            invariant
                i <= FANOUT,
                slots@.len() == i,
                forall|j: int| 0 <= j < i ==> slots@[j] is None,
            decreases FANOUT - i,
        {
            slots.push(None);
            i += 1;
        }
        Self { slots }
    }

    fn get(&self, i0: usize) -> (entry: Option<PageTableEntry>)
        requires
            self.wf(),
            i0 < FANOUT,
        ensures
            entry == self.lookup(i0 as int),
    {
        self.slots[i0]
    }

    fn set(&mut self, i0: usize, entry: Option<PageTableEntry>)
        requires
            old(self).wf(),
            i0 < FANOUT,
        ensures
            final(self).wf(),
            forall|j0: int|
                0 <= j0 < FANOUT ==> final(self).lookup(j0) == if j0 == i0 {
                    entry
                } else {
                    old(self).lookup(j0)
                },
    {
        self.slots[i0] = entry;
    }
}

impl MidTable {
    spec fn wf(&self) -> bool {
        &&& self.slots@.len() == FANOUT
        &&& forall|i1: int|
            0 <= i1 < FANOUT ==> ((#[trigger] self.slots@[i1]) matches Some(leaf) ==> leaf.wf())
    }

    spec fn lookup(&self, i1: int, i0: int) -> Option<PageTableEntry> {
        match self.slots@[i1] {
            Some(leaf) => leaf.lookup(i0),
            None => None,
        }
    }

    fn new() -> (table: Self)
        ensures
            table.wf(),
            forall|i1: int, i0: int|
                0 <= i1 < FANOUT && 0 <= i0 < FANOUT ==> table.lookup(i1, i0) is None,
    {
        let mut slots: Vec<Option<LeafTable>> = Vec::new();
        let mut i: usize = 0;
        while i < FANOUT
            invariant
                i <= FANOUT,
                slots@.len() == i,
                forall|j: int| 0 <= j < i ==> slots@[j] is None,
            decreases FANOUT - i,
        {
            slots.push(None);
            i += 1;
        }
        Self { slots }
    }

    fn get(&self, i1: usize, i0: usize) -> (entry: Option<PageTableEntry>)
        requires
            self.wf(),
            i1 < FANOUT,
            i0 < FANOUT,
        ensures
            entry == self.lookup(i1 as int, i0 as int),
    {
        match &self.slots[i1] {
            Some(leaf) => leaf.get(i0),
            None => None,
        }
    }

    fn set(&mut self, i1: usize, i0: usize, entry: Option<PageTableEntry>)
        requires
            old(self).wf(),
            i1 < FANOUT,
            i0 < FANOUT,
        ensures
            final(self).wf(),
            forall|j1: int, j0: int|
                0 <= j1 < FANOUT && 0 <= j0 < FANOUT ==> final(self).lookup(j1, j0) == if j1 == i1
                    && j0 == i0 {
                    entry
                } else {
                    old(self).lookup(j1, j0)
                },
    {
        if self.slots[i1].is_none() {
            if entry.is_none() {
                return;
            }
            self.slots[i1] = Some(LeafTable::new());
        }
        match &mut self.slots[i1] {
            Some(leaf) => {
                leaf.set(i0, entry);
            },
            None => {},
        }
    }
}

/// First index of a page number: which slot of the root.
pub open spec fn index2(vpn: usize) -> int {
    vpn as int / (FANOUT * FANOUT) as int
}

/// Second index of a page number.
pub open spec fn index1(vpn: usize) -> int {
    (vpn as int / FANOUT as int) % FANOUT as int
}

/// Third index of a page number.
pub open spec fn index0(vpn: usize) -> int {
    vpn as int % FANOUT as int
}

impl PageTable {
    /// Every table of every level has its 512 slots.
    pub closed spec fn wf(&self) -> bool {
        &&& self.slots@.len() == FANOUT
        &&& forall|i2: int|
            0 <= i2 < FANOUT ==> ((#[trigger] self.slots@[i2]) matches Some(mid) ==> mid.wf())
    }

    /// What the walk for the page `vpn` finds.
    pub closed spec fn lookup(&self, vpn: usize) -> Option<PageTableEntry> {
        if vpn < VPN_COUNT {
            match self.slots@[index2(vpn)] {
                Some(mid) => mid.lookup(index1(vpn), index0(vpn)),
                None => None,
            }
        } else {
            None
        }
    }

    /// Only pages of the address space are mapped.
    pub proof fn lemma_keys_in_range(&self, vpn: usize)
        requires
            self@.contains_key(vpn),
        ensures
            vpn < VPN_COUNT,
    {
    }

    /// A page table that maps nothing.
    pub fn new() -> (table: Self)
        ensures
            table.wf(),
            table@ == Map::<usize, PageTableEntry>::empty(),
    {
        let mut slots: Vec<Option<MidTable>> = Vec::new();
        let mut i: usize = 0;
        while i < FANOUT
            invariant
                i <= FANOUT,
                slots@.len() == i,
                forall|j: int| 0 <= j < i ==> slots@[j] is None,
            decreases FANOUT - i,
        {
            slots.push(None);
            i += 1;
        }
        let table = Self { slots };
        assert(table@ =~= Map::<usize, PageTableEntry>::empty());
        table
    }

    fn set(&mut self, vpn: usize, entry: Option<PageTableEntry>)
        requires
            old(self).wf(),
            vpn < VPN_COUNT,
        ensures
            final(self).wf(),
            forall|other: usize|
                final(self).lookup(other) == if other == vpn {
                    entry
                } else {
                    old(self).lookup(other)
                },
    {
        let i2 = vpn / (FANOUT * FANOUT);
        let i1 = (vpn / FANOUT) % FANOUT;
        let i0 = vpn % FANOUT;
        if self.slots[i2].is_none() {
            if entry.is_none() {
                return;
            }
            self.slots[i2] = Some(MidTable::new());
        }
        match &mut self.slots[i2] {
            Some(mid) => {
                mid.set(i1, i0, entry);
            },
            None => {},
        }
        assert forall|other: usize|
            self.lookup(other) == if other == vpn {
                entry
            } else {
                old(self).lookup(other)
            } by {
            if other < VPN_COUNT && other != vpn {
                assert(index2(other) != index2(vpn) || index1(other) != index1(vpn) || index0(other)
                    != index0(vpn));
            }
        }
    }

    /// Maps the page `vpn`, which was unmapped, to the frame of `entry`.
    pub fn map(&mut self, vpn: VirtPageNum, entry: PageTableEntry)
        requires
            old(self).wf(),
            vpn.0 < VPN_COUNT,
            !old(self)@.contains_key(vpn.0),
        ensures
            final(self).wf(),
            final(self)@ == old(self)@.insert(vpn.0, entry),
    {
        self.set(vpn.0, Some(entry));
        assert(self@ =~= old(self)@.insert(vpn.0, entry));
    }

    /// Unmaps the page `vpn`, which was mapped.
    pub fn unmap(&mut self, vpn: VirtPageNum)
        requires
            old(self).wf(),
            old(self)@.contains_key(vpn.0),
        ensures
            final(self).wf(),
            final(self)@ == old(self)@.remove(vpn.0),
    {
        self.set(vpn.0, None);
        assert(self@ =~= old(self)@.remove(vpn.0));
    }

    /// Walks the table for the page `vpn`: its entry, or `None` where the
    /// walk finds an empty slot at some level.
    pub fn translate(&self, vpn: VirtPageNum) -> (entry: Option<PageTableEntry>)
        requires
            self.wf(),
        ensures
            entry == if self@.contains_key(vpn.0) {
                Some(self@[vpn.0])
            } else {
                None
            },
    {
        if vpn.0 >= VPN_COUNT {
            return None;
        }
        let i2 = vpn.0 / (FANOUT * FANOUT);
        let i1 = (vpn.0 / FANOUT) % FANOUT;
        let i0 = vpn.0 % FANOUT;
        match &self.slots[i2] {
            Some(mid) => mid.get(i1, i0),
            None => None,
        }
    }
}

impl View for PageTable {
    type V = Map<usize, PageTableEntry>;

    /// The mapped pages, each with its entry.
    closed spec fn view(&self) -> Map<usize, PageTableEntry> {
        Map::new(|vpn: usize| self.lookup(vpn) is Some, |vpn: usize| self.lookup(vpn)->0)
    }
}

} // verus!
