//! Paging through the NicoNico snapshot search API.

use vstd::prelude::*;

verus! {

/// The number of videos asked for per page.
pub const PAGE_LIMIT: usize = 100;

/// The offset at which paging stops: at most 1600 videos are fetched.
pub const MAX_OFFSET: usize = 1600;

/// After the page at `offset` brought `page_len` videos, making `fetched` in
/// all: the offset of the next page, or `None` when paging is over (a short
/// page, enough videos, or the last offset reached).
pub fn next_page_offset(offset: usize, page_len: usize, fetched: usize) -> (r: Option<usize>)
    requires
        offset < MAX_OFFSET,
    ensures
        r is Some <==> (page_len >= PAGE_LIMIT && fetched < MAX_OFFSET && offset + PAGE_LIMIT
            < MAX_OFFSET),
        r matches Some(next) ==> next == offset + PAGE_LIMIT,
{
    if page_len < PAGE_LIMIT || fetched >= MAX_OFFSET {
        return None;
    }
    let next = offset + PAGE_LIMIT;
    if next < MAX_OFFSET {
        Some(next)
    } else {
        None
    }
}

} // verus!
