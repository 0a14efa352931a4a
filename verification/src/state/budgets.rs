//! How much work one client may cause at the content route.

use vstd::prelude::*;

verus! {

/// The limits of the content route.
#[derive(Clone, Copy, Debug)]
pub struct IpfsLimits {
    /// Requests per hour; 0 for no limit.
    pub ipfs_rate_limit: usize,
    pub ipfs_max_legacy_probes: usize,
    pub ipfs_max_legacy_scan_rows: usize,
    pub ipfs_max_repos_walked: usize,
}

/// The number of pages of `page` rows that `rows` rows take.
pub open spec fn pages_of(rows: nat, page: nat) -> nat {
    if rows % page == 0 { rows / page } else { rows / page + 1 }
}

/// The work of one complete resolution: its probes, its pages and its walks.
pub open spec fn one_resolution(limits: IpfsLimits, page_rows: usize, max_walks: u32) -> nat {
    let walks = if max_walks <= limits.ipfs_max_repos_walked {
        max_walks as nat
    } else {
        limits.ipfs_max_repos_walked as nat
    };
    limits.ipfs_max_legacy_probes as nat + pages_of(
        limits.ipfs_max_legacy_scan_rows as nat,
        page_rows as nat,
    ) + walks
}

/// The work that one client may cause in an hour: the request limit, but enough
/// for one complete resolution; 0, for no limit, where there is no request
/// limit.
pub open spec fn work_budget(limits: IpfsLimits, page_rows: usize, max_walks: u32) -> nat {
    if limits.ipfs_rate_limit == 0 {
        0
    } else if limits.ipfs_rate_limit >= one_resolution(limits, page_rows, max_walks) {
        limits.ipfs_rate_limit as nat
    } else {
        one_resolution(limits, page_rows, max_walks)
    }
}

/// The work that one client may cause in an hour. A page has `page_rows` rows,
/// and a request makes at most `max_walks` walks.
pub fn ipfs_work_budget(limits: &IpfsLimits, page_rows: usize, max_walks: u32) -> (r: usize)
    requires
        limits.ipfs_rate_limit > 0 ==> page_rows > 0 && one_resolution(
            *limits,
            page_rows,
            max_walks,
        ) <= usize::MAX,
    ensures
        r == work_budget(*limits, page_rows, max_walks),
{
    if limits.ipfs_rate_limit == 0 {
        return 0;
    }
    let whole: usize = limits.ipfs_max_legacy_scan_rows / page_rows;
    let pages: usize = if limits.ipfs_max_legacy_scan_rows % page_rows == 0 {
        whole
    } else {
        whole + 1
    };
    let walks: usize = if (max_walks as usize) <= limits.ipfs_max_repos_walked {
        max_walks as usize
    } else {
        limits.ipfs_max_repos_walked
    };
    let needed: usize = limits.ipfs_max_legacy_probes + pages + walks;
    if limits.ipfs_rate_limit >= needed {
        limits.ipfs_rate_limit
    } else {
        needed
    }
}

/// A client within the budget can make one complete resolution.
pub proof fn budget_covers_one_resolution(limits: IpfsLimits, page_rows: usize, max_walks: u32)
    requires
        limits.ipfs_rate_limit > 0,
    ensures
        work_budget(limits, page_rows, max_walks) >= one_resolution(limits, page_rows, max_walks),
        work_budget(limits, page_rows, max_walks) >= limits.ipfs_rate_limit,
{
}

/// The pages hold all rows, and one page less would not.
pub proof fn pages_are_enough_and_no_more(rows: nat, page: nat)
    requires
        page > 0,
    ensures
        pages_of(rows, page) * page >= rows,
        rows > 0 ==> (pages_of(rows, page) - 1) * page < rows,
{
    let q = rows / page;
    let m = rows % page;
    assert(rows == q * page + m && 0 <= m < page) by (nonlinear_arith)
        requires
            page > 0,
            q == rows / page,
            m == rows % page,
    ;
    assert((q + 1) * page == q * page + page) by (nonlinear_arith);
    assert((q - 1) * page == q * page - page) by (nonlinear_arith);
}

/// The probes that one request may make.
pub fn ipfs_legacy_probe_budget(limits: &IpfsLimits) -> (r: u32)
    ensures
        r == limits.ipfs_max_legacy_probes as u32,
        limits.ipfs_max_legacy_probes <= u32::MAX ==> r == limits.ipfs_max_legacy_probes,
{
    #[verifier::truncate]
    (limits.ipfs_max_legacy_probes as u32)
}

/// The rows that one request may scan.
pub fn ipfs_legacy_scan_row_budget(limits: &IpfsLimits) -> (r: usize)
    ensures
        r == limits.ipfs_max_legacy_scan_rows,
{
    limits.ipfs_max_legacy_scan_rows
}

/// The budget in numbers: none where there is no limit of requests. Else it is the
/// limit of requests, or what one complete resolution takes where that is more: its
/// probes, as many pages as hold the rows that it may scan, and as many walks as
/// one request may make and as there may be repositories walked.
pub proof fn budgets_in_numbers(
    limits: IpfsLimits,
    page_rows: usize,
    max_walks: u32,
    pages: nat,
    walks: nat,
)
    requires
        page_rows > 0,
        pages * page_rows >= limits.ipfs_max_legacy_scan_rows,
        pages > 0 ==> (pages - 1) * page_rows < limits.ipfs_max_legacy_scan_rows,
        walks <= max_walks,
        walks <= limits.ipfs_max_repos_walked,
        walks == max_walks || walks == limits.ipfs_max_repos_walked,
    ensures
        ({
            let b = work_budget(limits, page_rows, max_walks);
            let whole = limits.ipfs_max_legacy_probes + pages + walks;
            &&& limits.ipfs_rate_limit == 0 ==> b == 0
            &&& limits.ipfs_rate_limit > 0 ==> b >= limits.ipfs_rate_limit && b >= whole && (b
                == limits.ipfs_rate_limit || b == whole)
        }),
{
    let rows = limits.ipfs_max_legacy_scan_rows as nat;
    let page = page_rows as nat;
    let p = pages_of(rows, page);
    pages_are_enough_and_no_more(rows, page);
    if rows == 0 {
        assert(pages == 0) by (nonlinear_arith)
            requires
                rows == 0,
                page > 0,
                pages > 0 ==> (pages - 1) * page < rows,
        ;
        assert(p == 0) by {
            assert(0nat % page == 0 && 0nat / page == 0) by (nonlinear_arith)
                requires
                    page > 0,
            ;
        }
    } else {
        assert(pages == p) by (nonlinear_arith)
            requires
                page > 0,
                rows > 0,
                p * page >= rows,
                (p - 1) * page < rows,
                pages * page >= rows,
                pages > 0 ==> (pages - 1) * page < rows,
        ;
    }
}

} // verus!
