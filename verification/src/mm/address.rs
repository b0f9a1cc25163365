//! Virtual and physical addresses and page numbers.
//!
//! A virtual address selects its page by the 27 bits above the page offset;
//! the bits above those take no part in translation.

use vstd::prelude::*;
use crate::config::{PAGE_SIZE, PPN_LIMIT, TRAMPOLINE, TRAP_CONTEXT_BASE, VPN_COUNT};

verus! {

/// Number of the trampoline page.
pub open spec fn trampoline_vpn() -> usize {
    VirtAddr(TRAMPOLINE).spec_floor().0
}

/// Number of the page of the trap context.
pub open spec fn trap_context_vpn() -> usize {
    VirtAddr(TRAP_CONTEXT_BASE).spec_floor().0
}

/// The trap context lies in the page below the trampoline, and both are pages
/// of the address space.
pub proof fn lemma_high_pages()
    ensures
        trap_context_vpn() + 1 == trampoline_vpn(),
        trampoline_vpn() < VPN_COUNT,
        trap_context_vpn() >= 0x8_0000,
        trampoline_vpn() * PAGE_SIZE <= usize::MAX,
{
    assert(usize::MAX == 0xffff_ffff || usize::MAX == 0xffff_ffff_ffff_ffff) by {
        assert(usize::BITS == 32 || usize::BITS == 64);
    }
}

/// A virtual address.
#[derive(Clone, Copy, Debug, PartialEq, Eq, Structural)]
pub struct VirtAddr(pub usize);

/// A virtual page number, below `VPN_COUNT`.
#[derive(Clone, Copy, Debug, PartialEq, Eq, Structural)]
pub struct VirtPageNum(pub usize);

/// A physical address.
#[derive(Clone, Copy, Debug, PartialEq, Eq, Structural)]
pub struct PhysAddr(pub usize);

/// A physical page number, below `PPN_LIMIT`.
#[derive(Clone, Copy, Debug, PartialEq, Eq, Structural)]
pub struct PhysPageNum(pub usize);

impl VirtAddr {
    /// Offset of the address inside its page.
    pub open spec fn spec_page_offset(self) -> usize {
        (self.0 % PAGE_SIZE) as usize
    }

    /// Offset of the address inside its page.
    #[verifier::when_used_as_spec(spec_page_offset)]
    pub fn page_offset(self) -> (offset: usize)
        ensures
            offset == self.spec_page_offset(),
            offset < PAGE_SIZE,
    {
        self.0 % PAGE_SIZE
    }

    /// Number of the page that holds the address.
    pub open spec fn spec_floor(self) -> VirtPageNum {
        VirtPageNum(((self.0 / PAGE_SIZE) % VPN_COUNT) as usize)
    }

    /// Number of the page that holds the address.
    #[verifier::when_used_as_spec(spec_floor)]
    pub fn floor(self) -> (vpn: VirtPageNum)
        ensures
            vpn == self.spec_floor(),
            vpn.0 < VPN_COUNT,
    {
        VirtPageNum((self.0 / PAGE_SIZE) % VPN_COUNT)
    }

    /// The address is the first of its page.
    pub open spec fn spec_aligned(self) -> bool {
        self.0 % PAGE_SIZE == 0
    }

    /// The address is the first of its page.
    #[verifier::when_used_as_spec(spec_aligned)]
    pub fn aligned(self) -> (yes: bool)
        ensures
            yes == self.spec_aligned(),
    {
        self.0 % PAGE_SIZE == 0
    }
}

impl PhysPageNum {
    /// Physical address of the byte at `offset` in this frame.
    pub open spec fn spec_at(self, offset: usize) -> PhysAddr
        recommends
            self.0 < PPN_LIMIT,
            offset < PAGE_SIZE,
    {
        PhysAddr((self.0 * PAGE_SIZE + offset) as usize)
    }

    /// Physical address of the byte at `offset` in this frame.
    #[verifier::when_used_as_spec(spec_at)]
    pub fn at(self, offset: usize) -> (pa: PhysAddr)
        requires
            self.0 < PPN_LIMIT,
            offset < PAGE_SIZE,
        ensures
            pa == self.spec_at(offset),
            pa.0 / PAGE_SIZE == self.0,
            pa.0 % PAGE_SIZE == offset,
    {
        PhysAddr(self.0 * PAGE_SIZE + offset)
    }
}

impl PhysAddr {
    /// Number of the frame that holds the address.
    pub open spec fn spec_floor(self) -> PhysPageNum {
        PhysPageNum(self.0 / PAGE_SIZE)
    }

    /// Number of the frame that holds the address.
    #[verifier::when_used_as_spec(spec_floor)]
    pub fn floor(self) -> (ppn: PhysPageNum)
        ensures
            ppn == self.spec_floor(),
    {
        PhysPageNum(self.0 / PAGE_SIZE)
    }

    /// Offset of the address inside its frame.
    pub open spec fn spec_page_offset(self) -> usize {
        (self.0 % PAGE_SIZE) as usize
    }

    /// Offset of the address inside its frame.
    #[verifier::when_used_as_spec(spec_page_offset)]
    pub fn page_offset(self) -> (offset: usize)
        ensures
            offset == self.spec_page_offset(),
            offset < PAGE_SIZE,
    {
        self.0 % PAGE_SIZE
    }
}

} // verus!
