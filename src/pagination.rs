//! Pages of an ordered result set, with their metadata.
use vstd::prelude::*;

use crate::models::DEFAULT_PAGE_SIZE;

verus! {

/// One page of an ordered result set.
#[derive(Debug, Clone)]
pub struct PaginatedResponse<T> {
    pub data: Vec<T>,
    /// Number of matching rows, ignoring limit and offset.
    pub total_count: i64,
    pub page: usize,
    pub per_page: usize,
    pub total_pages: usize,
    pub has_next: bool,
    pub has_prev: bool,
}

/// `⌈n / d⌉`.
pub open spec fn ceil_div(n: int, d: int) -> int {
    if n % d == 0 {
        n / d
    } else {
        n / d + 1
    }
}

/// The rows of `rows` that a page of size `limit` starting at `offset` holds.
pub open spec fn page_slice<T>(rows: Seq<T>, limit: nat, offset: nat) -> Seq<T> {
    let lo = if offset < rows.len() {
        offset as int
    } else {
        rows.len() as int
    };
    let hi = if offset + limit < rows.len() {
        (offset + limit) as int
    } else {
        rows.len() as int
    };
    rows.subrange(lo, hi)
}

/// The metadata of a page over `total` matching rows: page index, page size,
/// page count and whether pages lie after and before it.
pub open spec fn meta_spec(total: int, limit: int, offset: int) -> (int, int, int, bool, bool) {
    let page = offset / limit;
    let pages = ceil_div(total, limit);
    (page, limit, pages, page < pages - 1, page > 0)
}

impl<T> PaginatedResponse<T> {
    /// The metadata agrees with `total_count` and the page size.
    pub open spec fn meta_matches(&self, limit: int, offset: int) -> bool {
        meta_spec(self.total_count as int, limit, offset) == (
            self.page as int,
            self.per_page as int,
            self.total_pages as int,
            self.has_next,
            self.has_prev,
        )
    }

    /// A page with no rows out of none.
    pub fn empty() -> (r: PaginatedResponse<T>)
        ensures
            r.data@.len() == 0,
            r.total_count == 0 && r.page == 0 && r.per_page == DEFAULT_PAGE_SIZE,
            r.total_pages == 0 && !r.has_next && !r.has_prev,
    {
        PaginatedResponse {
            data: Vec::new(),
            total_count: 0,
            page: 0,
            per_page: DEFAULT_PAGE_SIZE,
            total_pages: 0,
            has_next: false,
            has_prev: false,
        }
    }

    /// The page holds no rows.
    pub fn is_empty(&self) -> (r: bool)
        ensures
            r == (self.data@.len() == 0),
    {
        self.data.len() == 0
    }

    /// Number of rows on the page.
    pub fn len(&self) -> (r: usize)
        ensures
            r == self.data@.len(),
    {
        self.data.len()
    }

    /// Wraps the rows of one page with the metadata for `total_count`
    /// matching rows. A missing limit means `DEFAULT_PAGE_SIZE`, a missing
    /// offset the first page.
    pub fn from_page(data: Vec<T>, total_count: i64, limit: Option<usize>, offset: Option<usize>) -> (r:
        PaginatedResponse<T>)
        requires
            0 <= total_count <= usize::MAX,
            limit != Some(0usize),
        ensures
            r.data == data,
            r.total_count == total_count,
            r.meta_matches(
                limit.unwrap_or(DEFAULT_PAGE_SIZE) as int,
                offset.unwrap_or(0) as int,
            ),
    {
        let per_page = match limit {
            Some(l) => l,
            None => DEFAULT_PAGE_SIZE,
        };
        let off = match offset {
            Some(o) => o,
            None => 0,
        };
        let page = off / per_page;
        let t = total_count as u64;
        let pp = per_page as u64;
        let full = t / pp;
        let pages64 = if t % pp == 0 {
            full
        } else {
            full + 1
        };
        proof {
            let rem = t % pp;
            assert(full * pp + rem == t && full <= full * pp) by (nonlinear_arith)
                requires
                    full == t / pp,
                    rem == t % pp,
                    pp >= 1,
            ;
        }
        assert(pages64 as int == ceil_div(total_count as int, per_page as int));
        let total_pages = pages64 as usize;
        let has_next = total_pages > 0 && page < total_pages - 1;
        PaginatedResponse {
            data,
            total_count,
            page,
            per_page,
            total_pages,
            has_next,
            has_prev: page > 0,
        }
    }

    /// The page of size `limit` starting at `offset` of the full, ordered
    /// result set `rows`, with its metadata.
    pub fn paginate(rows: Vec<T>, limit: usize, offset: usize) -> (r: PaginatedResponse<T>)
        requires
            limit >= 1,
            rows@.len() <= i64::MAX,
        ensures
            r.data@ == page_slice(rows@, limit as nat, offset as nat),
            r.total_count == rows@.len(),
            r.meta_matches(limit as int, offset as int),
    {
        let n = rows.len();
        let lo = if offset < n {
            offset
        } else {
            n
        };
        let hi = if limit < n - lo {
            lo + limit
        } else {
            n
        };
        let mut rest = rows;
        let mut page_rows = rest.split_off(lo);
        let _tail = page_rows.split_off(hi - lo);
        proof {
            assert(page_rows@ =~= page_slice(rows@, limit as nat, offset as nat));
        }
        PaginatedResponse::from_page(page_rows, n as i64, Some(limit), Some(offset))
    }
}

/// The rows of pages `0 .. k` of size `limit`, one after the other.
pub open spec fn walk<T>(rows: Seq<T>, limit: nat, k: nat) -> Seq<T>
    decreases k,
{
    if k == 0 {
        Seq::empty()
    } else {
        walk(rows, limit, (k - 1) as nat) + page_slice(rows, limit, ((k - 1) * limit) as nat)
    }
}

proof fn lemma_walk_prefix<T>(rows: Seq<T>, limit: nat, k: nat)
    requires
        limit >= 1,
    ensures
        walk(rows, limit, k) == rows.subrange(
            0,
            if k * limit < rows.len() {
                (k * limit) as int
            } else {
                rows.len() as int
            },
        ),
    decreases k,
{
    if k > 0 {
        lemma_walk_prefix(rows, limit, (k - 1) as nat);
        let n = rows.len() as int;
        let prev = ((k - 1) * limit) as int;
        assert(prev + limit == k * limit) by (nonlinear_arith)
            requires
                prev == (k - 1) * limit,
                k >= 1,
        ;
        let a = if prev < n {
            prev
        } else {
            n
        };
        let b = if k * limit < n {
            (k * limit) as int
        } else {
            n
        };
        let km1 = (k - 1) as nat;
        assert(km1 * limit == prev);
        assert(walk(rows, limit, k) == walk(rows, limit, km1) + page_slice(rows, limit, prev as nat));
        assert(walk(rows, limit, km1) == rows.subrange(0, a));
        assert(page_slice(rows, limit, prev as nat) == rows.subrange(a, b));
        assert(rows.subrange(0, a) + rows.subrange(a, b) =~= rows.subrange(0, b));
    } else {
        assert(rows.subrange(0, 0) =~= Seq::<T>::empty());
    }
}

/// Row index `i` falls on the page of size `limit` at offset `k * limit`.
pub open spec fn on_page(i: int, k: nat, limit: nat) -> bool {
    k * limit <= i < k * limit + limit
}

/// Walking pages of size `limit` at offsets `0, limit, 2·limit, …` visits
/// every row exactly once: the row at index `i` lies on page `i / limit` and
/// on no other, the pages one after the other give back the whole result
/// set, and every page reports the same `total_count`, the number of rows.
pub proof fn pagination_walk_complete<T>(rows: Seq<T>, limit: nat)
    requires
        limit >= 1,
    ensures
        walk(rows, limit, ceil_div(rows.len() as int, limit as int) as nat) == rows,
        forall|i: int, k: nat|
            0 <= i < rows.len() ==> (#[trigger] on_page(i, k, limit) <==> k == i / limit as int),
        forall|k: nat, j: int|
            0 <= j < page_slice(rows, limit, k * limit).len() ==> #[trigger] page_slice(
                rows,
                limit,
                k * limit,
            )[j] == rows[k * limit + j],
{
    let n = rows.len() as int;
    let l = limit as int;
    let p = ceil_div(n, l);
    assert(p * l >= n && p >= 0) by (nonlinear_arith)
        requires
            l >= 1,
            n >= 0,
            p == (if n % l == 0 {
                n / l
            } else {
                n / l + 1
            }),
    ;
    lemma_walk_prefix(rows, limit, p as nat);
    assert(rows.subrange(0, n) =~= rows);
    assert forall|i: int, k: nat|
        0 <= i < rows.len() implies (#[trigger] on_page(i, k, limit) <==> k == i
            / limit as int) by {
        let q = i / l;
        assert(q * l <= i < q * l + l) by (nonlinear_arith)
            requires
                l >= 1,
                i >= 0,
                q == i / l,
        ;
        if k * limit <= i < k * limit + limit {
            assert(k == q) by (nonlinear_arith)
                requires
                    k * l <= i < k * l + l,
                    q * l <= i < q * l + l,
                    l >= 1,
            ;
        }
    }
}

} // verus!
