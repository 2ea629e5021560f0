//! Ranked listings of paths: pages ordered by total requests, and the top paths
//! by unique visitors.

use vstd::prelude::*;
use vstd::set_lib::{lemma_int_range, lemma_subset_equality, set_int_range};
use crate::store::{Analytics, Visits, copy_visits};

verus! {

/// The counter that a listing ranks by.
#[derive(Debug, Clone, Copy, PartialEq, Eq, Structural)]
pub enum RankKey {
    TotalRequests,
    UniqueVisitors,
}

/// Rows shown on one page of the listing.
pub const PAGE_SIZE: u64 = 15;

pub open spec fn key_of(key: RankKey, v: Visits) -> u64 {
    match key {
        RankKey::TotalRequests => v.total_requests,
        RankKey::UniqueVisitors => v.unique_visitors,
    }
}

/// `a` is listed before `b`: a larger counter first, and on equal counters the
/// older path first.
pub open spec fn ahead(key: RankKey, a: Visits, b: Visits) -> bool {
    key_of(key, a) > key_of(key, b) || (key_of(key, a) == key_of(key, b) && a.path_id
        < b.path_id)
}

/// `ord` lists every row index of `rows` once, in ranking order.
pub open spec fn is_ranking(rows: Seq<Visits>, key: RankKey, ord: Seq<usize>) -> bool {
    &&& ord.len() == rows.len()
    &&& forall|i: int| 0 <= i < ord.len() ==> #[trigger] ord[i] < rows.len()
    &&& forall|i: int, j: int|
        0 <= i < j < ord.len() ==> ahead(key, rows[#[trigger] ord[i] as int], rows[#[trigger] ord[j] as int])
}

/// The rows at positions `lo..hi` of the ranking `ord`.
pub open spec fn rows_at(rows: Seq<Visits>, ord: Seq<usize>, lo: int, hi: int) -> Seq<Visits> {
    ord.subrange(lo, hi).map_values(|i: usize| rows[i as int])
}

/// Number of pages of `size` rows that `n` rows fill.
pub open spec fn page_count(n: int, size: int) -> int {
    n / size + if n % size == 0 {
        0int
    } else {
        1int
    }
}

/// First position of page `page` (from 1) of `size` rows, within `n` rows.
pub open spec fn page_start(n: int, size: int, page: int) -> int {
    if size * (page - 1) < n {
        size * (page - 1)
    } else {
        n
    }
}

/// Position after the last of page `page` (from 1) of `size` rows, within `n` rows.
pub open spec fn page_end(n: int, size: int, page: int) -> int {
    if page_start(n, size, page) + size < n {
        page_start(n, size, page) + size
    } else {
        n
    }
}

proof fn lemma_ranking_covers(rows: Seq<Visits>, key: RankKey, ord: Seq<usize>, v: int)
    requires
        is_ranking(rows, key, ord),
        0 <= v < rows.len(),
    ensures
        exists|i: int| 0 <= i < ord.len() && ord[i] as int == v,
{
    let wide = ord.map_values(|x: usize| x as int);
    assert forall|i: int, j: int| 0 <= i < wide.len() && 0 <= j < wide.len() && i != j implies wide[i]
        != wide[j] by {
        if i < j {
            assert(ahead(key, rows[ord[i] as int], rows[ord[j] as int]));
        } else {
            assert(ahead(key, rows[ord[j] as int], rows[ord[i] as int]));
        }
    }
    assert(wide.no_duplicates());
    wide.unique_seq_to_set();
    let n = rows.len() as int;
    lemma_int_range(0, n);
    assert forall|x: int| wide.to_set().contains(x) implies set_int_range(0, n).contains(x) by {
        let i = choose|i: int| 0 <= i < wide.len() && wide[i] == x;
        assert(ord[i] < rows.len());
    }
    lemma_subset_equality(wide.to_set(), set_int_range(0, n));
    assert(set_int_range(0, n).contains(v));
    assert(wide.to_set().contains(v));
    let i = choose|i: int| 0 <= i < wide.len() && wide[i] == v;
    assert(ord[i] as int == v);
}

proof fn lemma_rankings_agree_below(rows: Seq<Visits>, key: RankKey, a: Seq<usize>, b: Seq<usize>, p: int)
    requires
        is_ranking(rows, key, a),
        is_ranking(rows, key, b),
        0 <= p <= rows.len(),
    ensures
        forall|i: int| 0 <= i < p ==> a[i] == b[i],
    decreases p,
{
    if p > 0 {
        let m = p - 1;
        lemma_rankings_agree_below(rows, key, a, b, m);
        if a[m] != b[m] {
            let x = a[m];
            let y = b[m];
            lemma_ranking_covers(rows, key, a, y as int);
            let q = choose|q: int| 0 <= q < a.len() && a[q] as int == y as int;
            if q < m {
                assert(b[q] == y);
                assert(ahead(key, rows[b[q] as int], rows[b[m] as int]));
            }
            assert(q > m);
            assert(ahead(key, rows[a[m] as int], rows[a[q] as int]));
            lemma_ranking_covers(rows, key, b, x as int);
            let r = choose|r: int| 0 <= r < b.len() && b[r] as int == x as int;
            if r < m {
                assert(a[r] == x);
                assert(ahead(key, rows[a[r] as int], rows[a[m] as int]));
            }
            assert(r > m);
            assert(ahead(key, rows[b[m] as int], rows[b[r] as int]));
        }
    }
}

/// A ranking is unique: two orders that both list every path once in ranking
/// order are the same, so a page of a listing is fully determined.
pub proof fn lemma_ranking_unique(rows: Seq<Visits>, key: RankKey, a: Seq<usize>, b: Seq<usize>)
    requires
        is_ranking(rows, key, a),
        is_ranking(rows, key, b),
    ensures
        a == b,
{
    lemma_rankings_agree_below(rows, key, a, b, rows.len() as int);
    assert(a =~= b);
}

fn is_ahead(key: RankKey, a: &Visits, b: &Visits) -> (r: bool)
    ensures
        r == ahead(key, *a, *b),
{
    let (ka, kb) = match key {
        RankKey::TotalRequests => (a.total_requests, b.total_requests),
        RankKey::UniqueVisitors => (a.unique_visitors, b.unique_visitors),
    };
    ka > kb || (ka == kb && a.path_id < b.path_id)
}

impl Analytics {
    /// The row indices of all paths in ranking order.
    pub fn ranked(&self, key: RankKey) -> (r: Vec<usize>)
        requires
            self.wf(),
        ensures
            is_ranking(self.path_rows(), key, r@),
    {
        proof {
            self.lemma_counters_match_log();
        }
        let rows = self.rows();
        let mut ord: Vec<usize> = Vec::new();
        let mut x: usize = 0;
        while x < rows.len()
            invariant
                x <= rows.len(),
                rows@ == self.path_rows(),
                forall|i: int| #![trigger rows@[i]] 0 <= i < rows@.len() ==> rows@[i].path_id == i + 1,
                ord@.len() == x,
                forall|i: int| 0 <= i < ord@.len() ==> #[trigger] ord@[i] < x,
                forall|i: int, j: int|
                    0 <= i < j < ord@.len() ==> ahead(key, rows@[#[trigger] ord@[i] as int], rows@[#[trigger] ord@[j] as int]),
            decreases rows.len() - x,
        {
            let mut p: usize = 0;
            while p < ord.len() && is_ahead(key, &rows[ord[p]], &rows[x])
                invariant
                    p <= ord@.len(),
                    x < rows@.len(),
                    forall|i: int| 0 <= i < ord@.len() ==> #[trigger] ord@[i] < x,
                    forall|i: int| 0 <= i < p ==> ahead(key, rows@[#[trigger] ord@[i] as int], rows@[x as int]),
                decreases ord@.len() - p,
            {
                p = p + 1;
            }
            let ghost before = ord@;
            proof {
                if p < before.len() {
                    let y = before[p as int] as int;
                    assert(rows@[y].path_id == y + 1);
                    assert(rows@[x as int].path_id == x + 1);
                    assert(!ahead(key, rows@[y], rows@[x as int]));
                    assert(ahead(key, rows@[x as int], rows@[y]));
                    assert forall|j: int| p <= j < before.len() implies ahead(key, rows@[x as int], rows@[#[trigger] before[j] as int]) by {
                        if j > p {
                            assert(ahead(key, rows@[before[p as int] as int], rows@[before[j] as int]));
                        }
                    }
                }
            }
            ord.insert(p, x);
            proof {
                let now = ord@;
                assert forall|i: int, j: int|
                    0 <= i < j < now.len() implies ahead(key, rows@[#[trigger] now[i] as int], rows@[#[trigger] now[j] as int]) by {
                    if j < p {
                        assert(now[i] == before[i] && now[j] == before[j]);
                    } else if j == p {
                        assert(now[i] == before[i]);
                    } else if i < p {
                        assert(now[i] == before[i] && now[j] == before[j - 1]);
                    } else if i == p {
                        assert(now[j] == before[j - 1]);
                    } else {
                        assert(now[i] == before[i - 1] && now[j] == before[j - 1]);
                    }
                }
                assert forall|i: int| 0 <= i < now.len() implies #[trigger] now[i] < x + 1 by {
                    if i < p {
                        assert(now[i] == before[i]);
                    } else if i > p {
                        assert(now[i] == before[i - 1]);
                    }
                }
            }
            x = x + 1;
        }
        ord
    }
    fn rows_in_order(&self, ord: &Vec<usize>, lo: usize, hi: usize) -> (r: Vec<Visits>)
        requires
            lo <= hi <= ord@.len(),
            forall|i: int| 0 <= i < ord@.len() ==> #[trigger] ord@[i] < self.path_rows().len(),
        ensures
            r@ == rows_at(self.path_rows(), ord@, lo as int, hi as int),
    {
        let rows = self.rows();
        let mut out: Vec<Visits> = Vec::new();
        let mut k: usize = lo;
        while k < hi
            invariant
                lo <= k <= hi <= ord@.len(),
                rows@ == self.path_rows(),
                forall|i: int| 0 <= i < ord@.len() ==> #[trigger] ord@[i] < rows@.len(),
                out@ == rows_at(rows@, ord@, lo as int, k as int),
            decreases hi - k,
        {
            out.push(copy_visits(&rows[ord[k]]));
            assert(out@ =~= rows_at(rows@, ord@, lo as int, k + 1));
            k = k + 1;
        }
        out
    }

    /// Page `page` (from 1) of `page_size` rows of the paths ranked by total
    /// requests, and the number of pages.
    pub fn list_page(&self, page_size: u64, page: u64) -> (r: (Vec<Visits>, u64))
        requires
            self.wf(),
            page_size >= 1,
            page >= 1,
        ensures
            r.1 == page_count(self.path_rows().len() as int, page_size as int),
            exists|ord: Seq<usize>|
                is_ranking(self.path_rows(), RankKey::TotalRequests, ord) && r.0@ == rows_at(
                    self.path_rows(),
                    ord,
                    page_start(self.path_rows().len() as int, page_size as int, page as int),
                    page_end(self.path_rows().len() as int, page_size as int, page as int),
                ),
    {
        let ord = self.ranked(RankKey::TotalRequests);
        let n: usize = ord.len();
        let size_wide: u128 = page_size as u128;
        let before_wide: u128 = (page - 1) as u128;
        proof {
            assert(size_wide * before_wide <= u64::MAX as int * u64::MAX as int) by (nonlinear_arith)
                requires
                    size_wide <= u64::MAX,
                    before_wide <= u64::MAX,
            ;
        }
        let skipped: u128 = size_wide * before_wide;
        let lo: usize = if skipped < n as u128 {
            skipped as usize
        } else {
            n
        };
        let hi: usize = if ((n - lo) as u64) > page_size {
            lo + page_size as usize
        } else {
            n
        };
        let rows = self.rows_in_order(&ord, lo, hi);
        let n64 = n as u64;
        let q = n64 / page_size;
        let rem = n64 % page_size;
        let pages = if rem == 0 {
            q
        } else {
            proof {
                assert(q < u64::MAX) by (nonlinear_arith)
                    requires
                        q == n64 / page_size,
                        rem == n64 % page_size,
                        rem != 0,
                        page_size >= 1,
                        n64 <= u64::MAX,
                ;
            }
            q + 1
        };
        (rows, pages)
    }

    /// The first `limit` paths ranked by unique visitors (all of them when
    /// there are fewer).
    pub fn list_top(&self, limit: u64) -> (r: Vec<Visits>)
        requires
            self.wf(),
        ensures
            exists|ord: Seq<usize>|
                is_ranking(self.path_rows(), RankKey::UniqueVisitors, ord) && r@ == rows_at(
                    self.path_rows(),
                    ord,
                    0,
                    if limit < self.path_rows().len() {
                        limit as int
                    } else {
                        self.path_rows().len() as int
                    },
                ),
    {
        let ord = self.ranked(RankKey::UniqueVisitors);
        let n: usize = ord.len();
        let hi: usize = if (limit as u128) < n as u128 {
            limit as usize
        } else {
            n
        };
        self.rows_in_order(&ord, 0, hi)
    }
}

} // verus!
