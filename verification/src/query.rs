//! List queries, page-size limits and pages.

use vstd::prelude::*;
use crate::cursor::CursorV1;

verus! {

/// The page size used when a query names none, and the largest one allowed.
#[derive(Clone, Copy, Debug, PartialEq, Eq, Structural)]
pub struct LimitCfg {
    pub default: u64,
    pub max: u64,
}

/// The page size that a query gets: the requested size (or the default when
/// none is requested), cut down to `max`, and at least 1.
pub open spec fn effective_limit_spec(cfg: LimitCfg, requested: Option<u64>) -> u64 {
    let wanted = match requested {
        Some(n) => n,
        None => cfg.default,
    };
    let capped = if wanted <= cfg.max {
        wanted
    } else {
        cfg.max
    };
    if capped == 0 {
        1
    } else {
        capped
    }
}

impl LimitCfg {
    /// The page size that a query with the given requested size gets.
    pub fn effective_limit(&self, requested: Option<u64>) -> (r: u64)
        ensures
            r == effective_limit_spec(*self, requested),
            r >= 1,
            self.max >= 1 ==> r <= self.max,
    {
        let wanted = match requested {
            Some(n) => n,
            None => self.default,
        };
        let capped = if wanted <= self.max {
            wanted
        } else {
            self.max
        };
        if capped == 0 {
            1
        } else {
            capped
        }
    }
}

/// A list query: an optional page size and an optional cursor.
#[derive(Clone, Copy, Debug, PartialEq, Eq, Structural)]
pub struct ODataQuery {
    pub limit: Option<u64>,
    pub cursor: Option<CursorV1>,
}

impl ODataQuery {
    /// The query for the first page at the default size.
    pub fn new() -> (q: ODataQuery)
        ensures
            q.limit is None,
            q.cursor is None,
    {
        ODataQuery { limit: None, cursor: None }
    }

    /// The same query with the given page size.
    pub fn with_limit(self, limit: u64) -> (q: ODataQuery)
        ensures
            q.limit == Some(limit),
            q.cursor == self.cursor,
    {
        ODataQuery { limit: Some(limit), cursor: self.cursor }
    }

    /// The same query, continuing from the given cursor.
    pub fn with_cursor(self, cursor: CursorV1) -> (q: ODataQuery)
        ensures
            q.limit == self.limit,
            q.cursor == Some(cursor),
    {
        ODataQuery { limit: self.limit, cursor: Some(cursor) }
    }
}

impl Default for ODataQuery {
    fn default() -> (q: ODataQuery)
        ensures
            q.limit is None,
            q.cursor is None,
    {
        ODataQuery::new()
    }
}

/// The cursors to a page's neighbours, as tokens, and the page size used.
#[derive(Debug)]
pub struct PageInfo {
    pub next_cursor: Option<String>,
    pub prev_cursor: Option<String>,
    pub limit: u64,
}

/// One page of a list.
#[derive(Debug)]
pub struct Page<T> {
    pub items: Vec<T>,
    pub page_info: PageInfo,
}

/// The characters of an optional string.
pub open spec fn opt_chars(s: Option<String>) -> Option<Seq<char>> {
    match s {
        Some(t) => Some(t@),
        None => None,
    }
}

/// A requested page size within the maximum is used as it is.
pub proof fn lemma_requested_limit_kept(cfg: LimitCfg, n: u64)
    requires
        1 <= n <= cfg.max,
    ensures
        effective_limit_spec(cfg, Some(n)) == n,
{
}

/// A requested page size above the maximum is cut down to the maximum.
pub proof fn lemma_requested_limit_capped(cfg: LimitCfg, n: u64)
    requires
        1 <= cfg.max < n,
    ensures
        effective_limit_spec(cfg, Some(n)) == cfg.max,
{
}

/// Without a requested size, the default is used when it is within the maximum.
pub proof fn lemma_default_limit_used(cfg: LimitCfg)
    requires
        1 <= cfg.default <= cfg.max,
    ensures
        effective_limit_spec(cfg, None) == cfg.default,
{
}

/// Whatever is requested, the page size is at least 1 and, when the maximum is
/// at least 1, at most the maximum; and asking for more never gives less.
pub proof fn lemma_limit_bounds_monotone(cfg: LimitCfg, a: u64, b: u64)
    requires
        a <= b,
    ensures
        effective_limit_spec(cfg, Some(a)) >= 1,
        cfg.max >= 1 ==> effective_limit_spec(cfg, Some(a)) <= cfg.max,
        effective_limit_spec(cfg, Some(a)) <= effective_limit_spec(cfg, Some(b)),
        effective_limit_spec(cfg, Some(a)) == a || a == 0 || a > cfg.max,
{
}

} // verus!
