//! Time-bucketed traffic graphs, rebuilt from the event log on read.

use vstd::prelude::*;
use crate::log::{count_in, count_events_in, lemma_count_in_empty, lemma_count_in_split, RequestEvent};
use crate::store::Analytics;

verus! {

/// One bucket of a graph: the number of events in `(timestamp_start, timestamp_end]`.
#[derive(Debug, Clone, Copy, PartialEq, Eq, Structural)]
pub struct Graphnode {
    pub amount: u64,
    pub timestamp_start: i64,
    pub timestamp_end: i64,
}

/// A titled series of buckets, oldest first.
#[derive(Debug, Clone)]
pub struct GraphView {
    pub timeline: Vec<Graphnode>,
    pub title: String,
}

/// Number of buckets in each preset graph.
pub const GRAPH_BUCKETS: u64 = 20;

/// Bucket width of the half-hourly graph, in milliseconds.
pub const HALF_HOUR_MILLIS: i64 = 1_800_000;

/// Bucket width of the daily graph, in milliseconds.
pub const DAY_MILLIS: i64 = 86_400_000;

/// Bucket width of the monthly (30 days) graph, in milliseconds.
pub const MONTH_MILLIS: i64 = 2_592_000_000;

/// Start (exclusive) of bucket `k` of `count` buckets of `width` ending at `now`.
pub open spec fn bucket_start(now: int, width: int, count: int, k: int) -> int {
    now - width * (count - k)
}

/// End (inclusive) of bucket `k` of `count` buckets of `width` ending at `now`.
pub open spec fn bucket_end(now: int, width: int, count: int, k: int) -> int {
    now - width * (count - 1 - k)
}

/// `s` is the series of `count` buckets of `width` ending at `now`, oldest
/// first, each holding the exact count of the path's events in its interval.
pub open spec fn is_series(
    events: Seq<RequestEvent>,
    path_id: u64,
    width: int,
    count: nat,
    now: int,
    s: Seq<Graphnode>,
) -> bool {
    &&& s.len() == count
    &&& forall|k: int|
        #![trigger s[k]]
        0 <= k < count ==> {
            &&& s[k].timestamp_start == bucket_start(now, width, count as int, k)
            &&& s[k].timestamp_end == bucket_end(now, width, count as int, k)
            &&& s[k].amount == count_in(
                events,
                path_id,
                bucket_start(now, width, count as int, k),
                bucket_end(now, width, count as int, k),
            )
        }
}

/// Sum of the bucket counts of a series.
pub open spec fn series_total(s: Seq<Graphnode>) -> int
    decreases s.len(),
{
    if s.len() == 0 {
        0
    } else {
        series_total(s.drop_last()) + s.last().amount
    }
}

/// A window whose ends fit in `i64`.
pub open spec fn window_fits(width: int, count: int, now: int) -> bool {
    i64::MIN <= now - width * count <= i64::MAX
}

proof fn lemma_offset_between(now: int, width: int, count: int, i: int)
    requires
        0 <= i <= count,
        window_fits(width, count, now),
        i64::MIN <= now <= i64::MAX,
    ensures
        i64::MIN <= now - width * i <= i64::MAX,
{
    if width >= 0 {
        assert(0 <= width * i <= width * count) by (nonlinear_arith)
            requires
                width >= 0,
                0 <= i <= count,
        ;
    } else {
        assert(width * count <= width * i <= 0) by (nonlinear_arith)
            requires
                width < 0,
                0 <= i <= count,
        ;
    }
}

/// Building a series twice on the same log gives the same series: the build is
/// a pure read.
pub proof fn lemma_series_deterministic(
    events: Seq<RequestEvent>,
    path_id: u64,
    width: int,
    count: nat,
    now: int,
    a: Seq<Graphnode>,
    b: Seq<Graphnode>,
)
    requires
        is_series(events, path_id, width, count, now, a),
        is_series(events, path_id, width, count, now, b),
    ensures
        a == b,
{
    assert(a =~= b);
}

proof fn lemma_series_prefix(
    events: Seq<RequestEvent>,
    path_id: u64,
    width: int,
    count: nat,
    now: int,
    s: Seq<Graphnode>,
    n: int,
)
    requires
        is_series(events, path_id, width, count, now, s),
        0 <= n <= count,
    ensures
        series_total(s.take(n)) == count_in(
            events,
            path_id,
            now - width * count,
            now - width * (count - n),
        ),
    decreases n,
{
    let c = count as int;
    if n == 0 {
        assert(s.take(0) =~= Seq::<Graphnode>::empty());
        lemma_count_in_empty(events, path_id, now - width * c, now - width * (c - 0));
    } else {
        let m = n - 1;
        lemma_series_prefix(events, path_id, width, count, now, s, m);
        let lo = now - width * c;
        let mid = now - width * (c - m);
        let hi = now - width * (c - m - 1);
        assert(s.take(n).drop_last() =~= s.take(m));
        assert(s[m].timestamp_start == bucket_start(now, width, c, m));
        assert(c - 1 - m == c - m - 1);
        assert(c - n == c - m - 1);
        if width >= 0 {
            assert(lo <= mid <= hi) by (nonlinear_arith)
                requires
                    width >= 0,
                    0 <= m < c,
                    lo == now - width * c,
                    mid == now - width * (c - m),
                    hi == now - width * (c - m - 1),
            ;
            lemma_count_in_split(events, path_id, lo, mid, hi);
        } else {
            assert(hi <= mid <= lo) by (nonlinear_arith)
                requires
                    width < 0,
                    0 <= m < c,
                    lo == now - width * c,
                    mid == now - width * (c - m),
                    hi == now - width * (c - m - 1),
            ;
            lemma_count_in_empty(events, path_id, lo, hi);
            lemma_count_in_empty(events, path_id, mid, hi);
            lemma_count_in_empty(events, path_id, lo, mid);
        }
    }
}

/// The buckets of a series partition `(now - width * count, now]`: they are
/// contiguous, the first starts at the window's start, the last ends at `now`,
/// and their counts add up to the count over the whole window.
pub proof fn lemma_series_partition(
    events: Seq<RequestEvent>,
    path_id: u64,
    width: int,
    count: nat,
    now: int,
    s: Seq<Graphnode>,
)
    requires
        is_series(events, path_id, width, count, now, s),
    ensures
        count > 0 ==> s[0].timestamp_start == now - width * count,
        count > 0 ==> s[count - 1].timestamp_end == now,
        forall|k: int| 0 <= k < count - 1 ==> #[trigger] s[k].timestamp_end == s[k + 1].timestamp_start,
        series_total(s) == count_in(events, path_id, now - width * count, now),
{
    let c = count as int;
    assert forall|k: int| 0 <= k < count - 1 implies #[trigger] s[k].timestamp_end == s[k
        + 1].timestamp_start by {
        assert(s[k + 1].timestamp_start == bucket_start(now, width, c, k + 1));
        assert(c - (k + 1) == c - 1 - k);
    }
    if count > 0 {
        assert(s[0].timestamp_start == bucket_start(now, width, c, 0));
        assert(s[c - 1].timestamp_end == bucket_end(now, width, c, c - 1));
        assert(width * (c - 1 - (c - 1)) == 0);
    }
    lemma_series_prefix(events, path_id, width, count, now, s, c);
    assert(s.take(c) =~= s);
    assert(width * (c - c) == 0);
}

impl Analytics {
    /// Number of events of the path whose time lies in `(lo, hi]`.
    pub fn count_in_range(&self, path_id: u64, lo: i64, hi: i64) -> (r: u64)
        ensures
            r == count_in(self.event_log(), path_id, lo as int, hi as int),
    {
        count_events_in(self.events(), path_id, lo, hi)
    }

    /// The `count` buckets of `width` milliseconds that end at `now`, oldest
    /// first, with the exact number of the path's events in each.
    pub fn build_series(&self, path_id: u64, width: i64, count: u64, now: i64) -> (r: Vec<Graphnode>)
        requires
            window_fits(width as int, count as int, now as int),
        ensures
            is_series(self.event_log(), path_id, width as int, count as nat, now as int, r@),
    {
        let events = self.events();
        let mut out: Vec<Graphnode> = Vec::new();
        let mut j: u64 = 0;
        while j < count
            invariant
                j <= count,
                window_fits(width as int, count as int, now as int),
                events@ == self.event_log(),
                out@.len() == j,
                forall|k: int|
                    #![trigger out@[k]]
                    0 <= k < j ==> {
                        &&& out@[k].timestamp_start == bucket_start(now as int, width as int, count as int, k)
                        &&& out@[k].timestamp_end == bucket_end(now as int, width as int, count as int, k)
                        &&& out@[k].amount == count_in(
                            events@,
                            path_id,
                            bucket_start(now as int, width as int, count as int, k),
                            bucket_end(now as int, width as int, count as int, k),
                        )
                    },
            decreases count - j,
        {
            let i: u64 = count - 1 - j;
            proof {
                lemma_offset_between(now as int, width as int, count as int, i as int);
                lemma_offset_between(now as int, width as int, count as int, i + 1);
                assert(count - j == i + 1 && count - 1 - j == i);
            }
            let end_wide: i128 = now as i128 - (width as i128) * (i as i128);
            let start_wide: i128 = now as i128 - (width as i128) * (i as i128 + 1);
            let end = end_wide as i64;
            let start = start_wide as i64;
            let amount = count_events_in(events, path_id, start, end);
            out.push(Graphnode { amount, timestamp_start: start, timestamp_end: end });
            proof {
                assert(bucket_start(now as int, width as int, count as int, j as int) == start);
                assert(bucket_end(now as int, width as int, count as int, j as int) == end);
                assert(out@[j as int].amount == amount);
            }
            j = j + 1;
        }
        out
    }
    /// The preset graph: `GRAPH_BUCKETS` buckets of `duration` ending at `now`.
    pub fn get_graph(&self, path_id: u64, duration: i64, now: i64, title: String) -> (r: GraphView)
        requires
            window_fits(duration as int, GRAPH_BUCKETS as int, now as int),
        ensures
            is_series(
                self.event_log(),
                path_id,
                duration as int,
                GRAPH_BUCKETS as nat,
                now as int,
                r.timeline@,
            ),
            r.title == title,
    {
        let timeline = self.build_series(path_id, duration, GRAPH_BUCKETS, now);
        GraphView { timeline, title }
    }

    /// The half-hourly, daily and monthly (30 days) graphs of a path, in that order.
    pub fn path_view(&self, path_id: u64, now: i64) -> (r: Vec<GraphView>)
        requires
            window_fits(MONTH_MILLIS as int, GRAPH_BUCKETS as int, now as int),
        ensures
            r@.len() == 3,
            r@[0].title@ == "Half Hourly"@,
            is_series(self.event_log(), path_id, HALF_HOUR_MILLIS as int, GRAPH_BUCKETS as nat, now as int, r@[0].timeline@),
            r@[1].title@ == "Daily"@,
            is_series(self.event_log(), path_id, DAY_MILLIS as int, GRAPH_BUCKETS as nat, now as int, r@[1].timeline@),
            r@[2].title@ == "Monthly (30 days)"@,
            is_series(self.event_log(), path_id, MONTH_MILLIS as int, GRAPH_BUCKETS as nat, now as int, r@[2].timeline@),
    {
        let half_hourly = self.get_graph(path_id, HALF_HOUR_MILLIS, now, String::from_str("Half Hourly"));
        let daily = self.get_graph(path_id, DAY_MILLIS, now, String::from_str("Daily"));
        let monthly = self.get_graph(path_id, MONTH_MILLIS, now, String::from_str("Monthly (30 days)"));
        let mut r: Vec<GraphView> = Vec::new();
        r.push(half_hourly);
        r.push(daily);
        r.push(monthly);
        r
    }
}

} // verus!
