//! Physical addresses and physical page numbers.
use vstd::prelude::*;
use crate::config::PAGE_SIZE;

verus! {

/// A physical address.
#[derive(Clone, Copy, PartialEq, Eq, Structural, Debug)]
pub struct PhysAddr(pub usize);

/// A physical page number.
#[derive(Clone, Copy, PartialEq, Eq, Structural, Debug)]
pub struct PhysPageNum(pub usize);

/// The number of the page that holds address `addr`.
pub open spec fn page_floor(addr: int) -> int {
    addr / (PAGE_SIZE as int)
}

/// The number of the first page that starts at or above address `addr`.
pub open spec fn page_ceil(addr: int) -> int {
    (addr + PAGE_SIZE - 1) / (PAGE_SIZE as int)
}

/// Page rounding brackets the address: the page below starts at or before
/// it and the next page starts after it; rounding up gives the first page
/// that starts at or above it, one more than rounding down unless the
/// address sits exactly on a page boundary.
pub proof fn lemma_page_rounding(addr: int)
    requires
        addr >= 0,
    ensures
        page_floor(addr) * PAGE_SIZE <= addr < (page_floor(addr) + 1) * PAGE_SIZE,
        addr <= page_ceil(addr) * PAGE_SIZE,
        page_ceil(addr) == 0 || (page_ceil(addr) - 1) * PAGE_SIZE < addr,
        addr % (PAGE_SIZE as int) == 0 ==> page_ceil(addr) == page_floor(addr),
        addr % (PAGE_SIZE as int) != 0 ==> page_ceil(addr) == page_floor(addr) + 1,
{
    assert(page_floor(addr) * 4096 <= addr < (page_floor(addr) + 1) * 4096) by (nonlinear_arith)
        requires
            page_floor(addr) == addr / 4096,
            addr >= 0,
    ;
    assert(addr % 4096 == 0 ==> (addr + 4095) / 4096 == addr / 4096) by (nonlinear_arith)
        requires
            addr >= 0,
    ;
    assert(addr % 4096 != 0 ==> (addr + 4095) / 4096 == addr / 4096 + 1) by (nonlinear_arith)
        requires
            addr >= 0,
    ;
}

impl PhysAddr {
    /// The page that contains this address.
    pub fn floor(&self) -> (ppn: PhysPageNum)
        ensures
            ppn.0 == page_floor(self.0 as int),
    {
        PhysPageNum(self.0 / PAGE_SIZE)
    }

    /// The first page that starts at or above this address.
    pub fn ceil(&self) -> (ppn: PhysPageNum)
        ensures
            ppn.0 == page_ceil(self.0 as int),
    {
        if self.0 == 0 {
            PhysPageNum(0)
        } else {
            let a = self.0;
            assert((a - 1) / 4096 + 1 == (a + 4096 - 1) / 4096) by (nonlinear_arith)
                requires a >= 1;
            PhysPageNum((self.0 - 1) / PAGE_SIZE + 1)
        }
    }
}

} // verus!
