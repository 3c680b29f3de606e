//! Addresses: a container id and an offset inside that container.

use vstd::prelude::*;

verus! {

/// log2 of the size of one index block (2 MiB).
pub const IBLK_SIZE_SHIFT: u32 = 21;

/// Mask of an offset inside one index block.
pub const IBLK_MASK: u32 = 0x1f_ffff;

/// log2 of the page size (4 KiB).
pub const PAGE_SHIFT: u32 = 12;

/// Mask of an offset inside one page.
pub const PAGE_MASK: u32 = 0xfff;

/// log2 of the number of pages in one index block.
pub const IBLK2PAGE_SHIFT: u32 = 9;

/// Mask of a page number inside one index block.
pub const IBLK2PAGE_MASK: u32 = 0x1ff;

/// An address: container id and offset in that container.
#[derive(Clone, Copy, Debug, PartialEq, Eq, Structural, Hash)]
pub struct Addr {
    cid: u32,
    off: u32,
}

/// A physical address.
pub type Paddr = Addr;

/// A logical address.
pub type Laddr = Addr;

impl View for Addr {
    /// The pair (container id, offset).
    type V = (u32, u32);

    closed spec fn view(&self) -> (u32, u32) {
        (self.cid, self.off)
    }
}

/// An address is determined by its container id and offset.
pub proof fn lemma_addr_view_injective(a: Addr, b: Addr)
    ensures
        a@ == b@ ==> a == b,
{
}

impl Addr {
    pub fn new(id: u32, off: u32) -> (a: Addr)
        ensures
            a@ == (id, off),
    {
        Addr { cid: id, off: off }
    }

    pub fn get_cid(&self) -> (c: u32)
        ensures
            c == self@.0,
    {
        self.cid
    }

    pub fn get_offset(&self) -> (o: u32)
        ensures
            o == self@.1,
    {
        self.off
    }
}

impl Laddr {
    /// Keeps only the offset inside the index block.
    pub fn align(&mut self)
        ensures
            final(self)@.0 == old(self)@.0,
            final(self)@.1 == old(self)@.1 & IBLK_MASK,
            final(self)@.1 == old(self)@.1 % 0x20_0000,
    {
        let o = self.off;
        assert(o & 0x1f_ffffu32 == o % 0x20_0000) by (bit_vector);
        self.off = o & IBLK_MASK;
    }
}

} // verus!
