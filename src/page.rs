use vstd::prelude::*;

use crate::shared::PAGE_SIZE;

verus! {

/// The raw contents of one page, in memory or on disk.
pub type Page = [u8; PAGE_SIZE];

/// The contents of a page that holds nothing but zeros.
pub open spec fn zero_page() -> Seq<u8> {
    Seq::new(PAGE_SIZE as nat, |i: int| 0u8)
}

/// A page of zeros.
pub fn empty() -> (r: Page)
    ensures
        r@ == zero_page(),
{
    let r = [0u8; PAGE_SIZE];
    assert(r@ =~= zero_page());
    r
}

} // verus!
