//! Per-task page tables: virtual page number to frame and permission bits.
use vstd::prelude::*;

use std::collections::HashMap;

verus! {

broadcast use vstd::std_specs::hash::group_hash_axioms;

/// Permission bits of a mapping.
#[derive(Clone, Copy, Debug, PartialEq, Eq, Structural)]
pub struct MapPermission {
    pub bits: u8,
}

/// Readable.
pub const PERM_R: u8 = 0x2;

/// Writable.
pub const PERM_W: u8 = 0x4;

/// Executable.
pub const PERM_X: u8 = 0x8;

/// Reachable from user mode.
pub const PERM_U: u8 = 0x10;

impl MapPermission {
    /// The permission that a user mapping gets for an mmap `port`
    /// (bit 0 readable, bit 1 writable, bit 2 executable).
    pub open spec fn spec_from_port(port: usize) -> MapPermission {
        MapPermission {
            bits: (PERM_U
                | (if port & 0x1 != 0 { PERM_R } else { 0u8 })
                | (if port & 0x2 != 0 { PERM_W } else { 0u8 })
                | (if port & 0x4 != 0 { PERM_X } else { 0u8 })) as u8,
        }
    }

    pub open spec fn readable(self) -> bool {
        self.bits & PERM_R != 0
    }

    pub open spec fn writable(self) -> bool {
        self.bits & PERM_W != 0
    }

    pub open spec fn executable(self) -> bool {
        self.bits & PERM_X != 0
    }

    pub open spec fn user(self) -> bool {
        self.bits & PERM_U != 0
    }

    /// Builds the user permission for an mmap `port`.
    pub fn from_port(port: usize) -> (r: MapPermission)
        ensures
            r == Self::spec_from_port(port),
            r.user(),
            r.readable() == (port & 0x1 != 0),
            r.writable() == (port & 0x2 != 0),
            r.executable() == (port & 0x4 != 0),
    {
        let a: u8 = if port & 0x1 != 0 { PERM_R } else { 0u8 };
        let b: u8 = if port & 0x2 != 0 { PERM_W } else { 0u8 };
        let c: u8 = if port & 0x4 != 0 { PERM_X } else { 0u8 };
        let bits: u8 = PERM_U | a | b | c;
        let r = MapPermission { bits };
        assert(((0x10u8 | a | b | c) & 0x10u8 != 0) && (((0x10u8 | a | b | c) & 0x2u8 != 0) == (a
            != 0)) && (((0x10u8 | a | b | c) & 0x4u8 != 0) == (b != 0)) && (((0x10u8 | a | b | c)
            & 0x8u8 != 0) == (c != 0))) by (bit_vector)
            requires
                a == 0 || a == 2,
                b == 0 || b == 4,
                c == 0 || c == 8,
        ;
        r
    }
}

/// One page-table entry: the frame that backs a page and its permission.
#[derive(Clone, Copy, Debug, PartialEq, Eq, Structural)]
pub struct PageTableEntry {
    pub ppn: usize,
    pub perm: MapPermission,
}

/// A page table, keyed by virtual page number.
pub struct PageTable {
    entries: HashMap<usize, PageTableEntry>,
}

impl View for PageTable {
    type V = Map<usize, PageTableEntry>;

    closed spec fn view(&self) -> Map<usize, PageTableEntry> {
        self.entries@
    }
}

impl PageTable {
    /// An empty page table.
    pub fn new() -> (r: PageTable)
        ensures
            r@ == Map::<usize, PageTableEntry>::empty(),
    {
        PageTable { entries: HashMap::new() }
    }

    /// The entry of page `vpn`, if it is mapped.
    pub fn translate(&self, vpn: usize) -> (r: Option<PageTableEntry>)
        ensures
            r == (if self@.contains_key(vpn) { Some(self@[vpn]) } else { None::<PageTableEntry> }),
    {
        match self.entries.get(&vpn) {
            Some(e) => Some(*e),
            None => None,
        }
    }

    /// Whether page `vpn` is mapped.
    pub fn is_mapped(&self, vpn: usize) -> (r: bool)
        ensures
            r == self@.contains_key(vpn),
    {
        self.entries.contains_key(&vpn)
    }

    /// Installs the entry of an unmapped page.
    pub fn map(&mut self, vpn: usize, entry: PageTableEntry)
        requires
            !old(self)@.contains_key(vpn),
        ensures
            final(self)@ == old(self)@.insert(vpn, entry),
    {
        self.entries.insert(vpn, entry);
    }

    /// Clears the entry of a mapped page and returns it.
    pub fn unmap(&mut self, vpn: usize) -> (r: PageTableEntry)
        requires
            old(self)@.contains_key(vpn),
        ensures
            r == old(self)@[vpn],
            final(self)@ == old(self)@.remove(vpn),
    {
        self.entries.remove(&vpn).unwrap()
    }

    /// Clears every entry.
    pub fn clear(&mut self)
        ensures
            final(self)@ == Map::<usize, PageTableEntry>::empty(),
    {
        self.entries.clear();
    }
}

} // verus!
