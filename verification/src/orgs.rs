//! Walking the organizations of an instance page by page.
use vstd::prelude::*;

verus! {

/// How many organizations one page of the listing asks for.
pub const ORG_PAGE_SIZE: u64 = 100;

/// Where the listing of organizations goes after the page at `offset`: to the
/// next page when this one came back, and nowhere when it did not, or when
/// the next offset does not fit in a `u64`.
pub fn next_org_offset(offset: u64, page_came_back: bool) -> (r: Option<u64>)
    ensures
        r == (if page_came_back && offset + ORG_PAGE_SIZE <= u64::MAX {
            Some((offset + ORG_PAGE_SIZE) as u64)
        } else {
            None::<u64>
        }),
{
    if page_came_back {
        offset.checked_add(ORG_PAGE_SIZE)
    } else {
        None
    }
}

} // verus!
