use vstd::prelude::*;

verus! {

/// One token in an administrator's listing.
#[derive(Clone, Debug)]
pub struct TokenEntry {
    pub token: String,
    /// Whole seconds since the token was last seen (0 when it was seen "in the future").
    pub idle_secs: u64,
    /// The 1-based place in line of a waiting token; `None` for an admitted one.
    pub position: Option<usize>,
}

/// A page of a site's admitted and waiting tokens, with their totals.
#[derive(Debug)]
pub struct Snapshot {
    pub active: Vec<TokenEntry>,
    pub waiting: Vec<TokenEntry>,
    pub total_active: usize,
    pub total_waiting: usize,
}

impl Default for Snapshot {
    fn default() -> (r: Snapshot)
        ensures
            r.active@.len() == 0,
            r.waiting@.len() == 0,
            r.total_active == 0,
            r.total_waiting == 0,
    {
        Snapshot { active: Vec::new(), waiting: Vec::new(), total_active: 0, total_waiting: 0 }
    }
}

/// Whole seconds from `last` to `now`, or 0 when `last` is not before `now`.
pub open spec fn idle_seconds(now: i64, last: i64) -> u64 {
    if now - last > 0 {
        ((now - last) / 1000) as u64
    } else {
        0
    }
}

/// How many of `total` items a page of at most `limit` items starting at
/// `offset` holds.
pub open spec fn page_len(total: nat, limit: nat, offset: nat) -> nat {
    if offset >= total {
        0
    } else if total - offset < limit {
        (total - offset) as nat
    } else {
        limit
    }
}

/// Whole seconds from `last` to `now`, or 0 when `last` is not before `now`.
pub fn idle_secs(now: i64, last: i64) -> (r: u64)
    ensures
        r == idle_seconds(now, last),
{
    let d: i128 = (now as i128) - (last as i128);
    if d > 0 {
        assert(d / 1000 <= u64::MAX) by (nonlinear_arith)
            requires
                0 < d <= 0x1_0000_0000_0000_0000,
        ;
        (d / 1000) as u64
    } else {
        0
    }
}

/// The number of items on a page; see `page_len`.
pub fn page_size(total: usize, limit: usize, offset: usize) -> (r: usize)
    ensures
        r == page_len(total as nat, limit as nat, offset as nat),
{
    if offset >= total {
        0
    } else if total - offset < limit {
        total - offset
    } else {
        limit
    }
}

} // verus!
