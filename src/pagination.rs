//! Page arithmetic of the search endpoints.
use vstd::prelude::*;

verus! {

/// Records per page.
pub const PAGE_TAKE: i64 = 10;

/// A search term and the page asked for, counted from 1.
pub struct PaginationBody {
    pub term: String,
    pub page: i64,
}

/// Where a page stands among the results.
#[derive(PartialEq, Eq, Structural, Clone, Copy, Debug)]
pub struct PaginateResponse {
    pub per_page: i64,
    pub total_page: i64,
    pub count: i64,
    pub current_page: i64,
}

/// How many records come before page `page`; none before the first, and
/// `None` where the number does not fit in 64 bits.
pub fn page_offset(page: i64) -> (r: Option<u64>)
    ensures
        page < 1 ==> r == Some(0u64),
        page >= 1 ==> match r {
            Some(k) => k == (page - 1) * PAGE_TAKE,
            None => (page - 1) * PAGE_TAKE > u64::MAX,
        },
{
    if page < 1 {
        Some(0)
    } else {
        (page as u64 - 1).checked_mul(PAGE_TAKE as u64)
    }
}

/// The page description for `count` matching records, when page `body.page`
/// is asked for: as many pages as it takes to hold them all.
pub fn paginate(body: &PaginationBody, count: u64) -> (r: PaginateResponse)
    requires
        count <= i64::MAX,
    ensures
        r.per_page == PAGE_TAKE,
        r.count == count,
        r.current_page == body.page,
        r.total_page * PAGE_TAKE >= count,
        r.total_page * PAGE_TAKE < count + PAGE_TAKE,
{
    let total: u64 = count / 10 + if count % 10 == 0 { 0 } else { 1 };
    PaginateResponse {
        per_page: PAGE_TAKE,
        total_page: total as i64,
        count: count as i64,
        current_page: body.page,
    }
}

} // verus!
