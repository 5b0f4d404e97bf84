//! Virtual addresses, page numbers and page ranges.
use vstd::prelude::*;

use crate::config::PAGE_SIZE;

verus! {

/// Page number that holds the virtual address `va`.
pub open spec fn vpn_of(va: int) -> int {
    va / (PAGE_SIZE as int)
}

/// Offset of `va` inside its page.
pub open spec fn offset_of(va: int) -> int {
    va % (PAGE_SIZE as int)
}

/// First page number at or above `va` (the page count of `[0, va)`).
pub open spec fn ceil_vpn(va: int) -> int {
    (va + PAGE_SIZE as int - 1) / (PAGE_SIZE as int)
}

/// Whether `va` is the first byte of a page.
pub open spec fn is_aligned(va: int) -> bool {
    offset_of(va) == 0
}

/// Page number of the page that holds `va`.
pub fn floor_page(va: usize) -> (r: usize)
    ensures
        r == vpn_of(va as int),
{
    va / PAGE_SIZE
}

/// Page number just past the last page touched by `[0, va)`.
pub fn ceil_page(va: usize) -> (r: usize)
    ensures
        r == ceil_vpn(va as int),
{
    let q = va / PAGE_SIZE;
    if va % PAGE_SIZE == 0 {
        q
    } else {
        q + 1
    }
}

/// Whether `va` is page-aligned.
pub fn aligned(va: usize) -> (r: bool)
    ensures
        r == is_aligned(va as int),
{
    va % PAGE_SIZE == 0
}

} // verus!
