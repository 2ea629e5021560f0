//! The event log: the immutable request facts, and what the counters and graphs
//! are defined to be over them.

use vstd::prelude::*;

verus! {

/// One observed request against a path by a visitor.
#[derive(Debug, Clone)]
pub struct RequestEvent {
    pub id: u64,
    pub visitor_id: u64,
    pub path_id: u64,
    pub user_agent: String,
    pub method: u8,
    pub status: u16,
    pub created_at: i64,
}

/// Number of events recorded against `path_id`.
pub open spec fn total_count(events: Seq<RequestEvent>, path_id: u64) -> nat
    decreases events.len(),
{
    if events.len() == 0 {
        0
    } else {
        total_count(events.drop_last(), path_id) + if events.last().path_id == path_id {
            1nat
        } else {
            0nat
        }
    }
}

/// Whether some event pairs `visitor_id` with `path_id`.
pub open spec fn seen(events: Seq<RequestEvent>, visitor_id: u64, path_id: u64) -> bool {
    exists|i: int|
        0 <= i < events.len() && #[trigger] events[i].visitor_id == visitor_id
            && events[i].path_id == path_id
}

/// Number of unique visits to `path_id`: events that are the first for their
/// (visitor, path) pair.
pub open spec fn unique_count(events: Seq<RequestEvent>, path_id: u64) -> nat
    decreases events.len(),
{
    if events.len() == 0 {
        0
    } else {
        let e = events.last();
        let rest = events.drop_last();
        unique_count(rest, path_id) + if e.path_id == path_id && !seen(rest, e.visitor_id, path_id) {
            1nat
        } else {
            0nat
        }
    }
}

/// The distinct visitors among the events of `path_id`.
pub open spec fn visitors_of(events: Seq<RequestEvent>, path_id: u64) -> Set<u64> {
    Set::new(|v: u64| seen(events, v, path_id))
}

/// Number of events of `path_id` whose time lies in `(lo, hi]`.
pub open spec fn count_in(events: Seq<RequestEvent>, path_id: u64, lo: int, hi: int) -> nat
    decreases events.len(),
{
    if events.len() == 0 {
        0
    } else {
        let e = events.last();
        count_in(events.drop_last(), path_id, lo, hi) + if e.path_id == path_id && lo
            < e.created_at <= hi {
            1nat
        } else {
            0nat
        }
    }
}

pub proof fn lemma_seen_push(events: Seq<RequestEvent>, e: RequestEvent, v: u64, p: u64)
    ensures
        seen(events.push(e), v, p) == (seen(events, v, p) || (e.visitor_id == v && e.path_id
            == p)),
{
    let s = events.push(e);
    if seen(s, v, p) && !(e.visitor_id == v && e.path_id == p) {
        let i = choose|i: int|
            0 <= i < s.len() && #[trigger] s[i].visitor_id == v && s[i].path_id == p;
        assert(events[i].visitor_id == v);
    }
    if seen(events, v, p) {
        let i = choose|i: int|
            0 <= i < events.len() && #[trigger] events[i].visitor_id == v && events[i].path_id
                == p;
        assert(s[i].visitor_id == v);
    }
    if e.visitor_id == v && e.path_id == p {
        assert(s[events.len() as int].visitor_id == v);
    }
}

/// Appending one event changes the counts of its own path only, by one request
/// and by one unique visit exactly when its pair is new.
pub proof fn lemma_counts_push(events: Seq<RequestEvent>, e: RequestEvent, p: u64)
    ensures
        total_count(events.push(e), p) == total_count(events, p) + if e.path_id == p {
            1nat
        } else {
            0nat
        },
        unique_count(events.push(e), p) == unique_count(events, p) + if e.path_id == p
            && !seen(events, e.visitor_id, p) {
            1nat
        } else {
            0nat
        },
{
    assert(events.push(e).drop_last() =~= events);
}

pub proof fn lemma_count_in_push(events: Seq<RequestEvent>, e: RequestEvent, p: u64, lo: int, hi: int)
    ensures
        count_in(events.push(e), p, lo, hi) == count_in(events, p, lo, hi) + if e.path_id == p
            && lo < e.created_at <= hi {
            1nat
        } else {
            0nat
        },
{
    assert(events.push(e).drop_last() =~= events);
}

/// A path that no event names has no requests and no visitors.
pub proof fn lemma_counts_absent(events: Seq<RequestEvent>, p: u64)
    requires
        forall|i: int| 0 <= i < events.len() ==> #[trigger] events[i].path_id != p,
    ensures
        total_count(events, p) == 0,
        unique_count(events, p) == 0,
    decreases events.len(),
{
    if events.len() > 0 {
        let rest = events.drop_last();
        assert forall|i: int| 0 <= i < rest.len() implies #[trigger] rest[i].path_id != p by {
            assert(rest[i] == events[i]);
        }
        lemma_counts_absent(rest, p);
    }
}

/// Unique visits never outnumber requests, and requests never outnumber events.
pub proof fn lemma_counts_bounded(events: Seq<RequestEvent>, p: u64)
    ensures
        unique_count(events, p) <= total_count(events, p) <= events.len(),
    decreases events.len(),
{
    if events.len() > 0 {
        lemma_counts_bounded(events.drop_last(), p);
    }
}

/// The unique-visit count is the number of distinct visitors of the path.
pub proof fn lemma_unique_is_distinct_visitors(events: Seq<RequestEvent>, p: u64)
    ensures
        visitors_of(events, p).finite(),
        visitors_of(events, p).len() == unique_count(events, p),
    decreases events.len(),
{
    if events.len() == 0 {
        assert(visitors_of(events, p) =~= Set::empty());
    } else {
        let rest = events.drop_last();
        let e = events.last();
        assert(rest.push(e) =~= events);
        lemma_unique_is_distinct_visitors(rest, p);
        assert forall|v: u64| #[trigger] seen(events, v, p) == (seen(rest, v, p) || (
        e.visitor_id == v && e.path_id == p)) by {
            lemma_seen_push(rest, e, v, p);
        }
        if e.path_id == p {
            assert(visitors_of(events, p) =~= visitors_of(rest, p).insert(e.visitor_id));
        } else {
            assert(visitors_of(events, p) =~= visitors_of(rest, p));
        }
    }
}

/// An interval that is empty holds no events.
pub proof fn lemma_count_in_empty(events: Seq<RequestEvent>, p: u64, lo: int, hi: int)
    requires
        hi <= lo,
    ensures
        count_in(events, p, lo, hi) == 0,
    decreases events.len(),
{
    if events.len() > 0 {
        lemma_count_in_empty(events.drop_last(), p, lo, hi);
    }
}

/// Two adjacent half-open intervals count what their union counts.
pub proof fn lemma_count_in_split(events: Seq<RequestEvent>, p: u64, lo: int, mid: int, hi: int)
    requires
        lo <= mid <= hi,
    ensures
        count_in(events, p, lo, mid) + count_in(events, p, mid, hi) == count_in(events, p, lo, hi),
    decreases events.len(),
{
    if events.len() > 0 {
        lemma_count_in_split(events.drop_last(), p, lo, mid, hi);
    }
}

/// Events of `path_id` whose time lies in `(lo, hi]`, counted by a scan.
pub(crate) fn count_events_in(events: &Vec<RequestEvent>, path_id: u64, lo: i64, hi: i64) -> (r: u64)
    ensures
        r == count_in(events@, path_id, lo as int, hi as int),
{
    let mut n: u64 = 0;
    let mut k: usize = 0;
    while k < events.len()
        invariant
            k <= events.len(),
            n == count_in(events@.subrange(0, k as int), path_id, lo as int, hi as int),
            n <= k,
        decreases events.len() - k,
    {
        let ghost before = events@.subrange(0, k as int);
        assert(events@.subrange(0, k + 1) =~= before.push(events@[k as int]));
        proof {
            lemma_count_in_push(before, events@[k as int], path_id, lo as int, hi as int);
        }
        let e = &events[k];
        if e.path_id == path_id && lo < e.created_at && e.created_at <= hi {
            n = n + 1;
        }
        k = k + 1;
    }
    assert(events@.subrange(0, k as int) =~= events@);
    n
}

} // verus!
