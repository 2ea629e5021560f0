//! The analytics store: the path registry with its counters, the visitor
//! registry, the event log, and the ingestion of one request observation.

use vstd::prelude::*;
use crate::identity::{hash_address, sha256_of};
use crate::log::{
    RequestEvent,
    count_in,
    lemma_counts_absent,
    lemma_counts_bounded,
    lemma_counts_push,
    lemma_unique_is_distinct_visitors,
    seen,
    total_count,
    unique_count,
    visitors_of,
};
use crate::method::{Method, method_of_text};

verus! {

/// A tracked path and its counters.
#[derive(Debug, Clone)]
pub struct Visits {
    pub path_id: u64,
    pub path: String,
    pub unique_visitors: u64,
    pub total_requests: u64,
}

/// One request observation, as the serving layer hands it over.
#[derive(Debug, Clone)]
pub struct RequestData {
    pub ip_address: String,
    pub path: String,
    pub user_agent: String,
    pub method: String,
    pub status: u16,
}

impl RequestData {
    pub fn new(
        ip_address: String,
        path: String,
        user_agent: String,
        method: String,
        status: u16,
    ) -> (r: Self)
        ensures
            r.ip_address == ip_address,
            r.path == path,
            r.user_agent == user_agent,
            r.method == method,
            r.status == status,
    {
        Self { ip_address, path, user_agent, method, status }
    }
}

/// A fault of the store.
#[derive(Debug, Clone, Copy, PartialEq, Eq, Structural)]
pub enum StoreError {
    /// A table has as many rows as its identities can number.
    Full,
}

/// Whether some row of `rows` tracks `path`.
pub open spec fn has_path(rows: Seq<Visits>, path: Seq<char>) -> bool {
    exists|i: int| 0 <= i < rows.len() && #[trigger] rows[i].path@ == path
}

/// The identity that `path` has in `rows`, or that it gets when first seen.
pub open spec fn path_id_for(rows: Seq<Visits>, path: Seq<char>) -> int {
    if has_path(rows, path) {
        (choose|i: int| 0 <= i < rows.len() && #[trigger] rows[i].path@ == path) + 1
    } else {
        rows.len() + 1int
    }
}

/// Whether `hash` is a known visitor digest.
pub open spec fn has_visitor(hashes: Seq<Seq<u8>>, hash: Seq<u8>) -> bool {
    exists|i: int| 0 <= i < hashes.len() && #[trigger] hashes[i] == hash
}

/// The identity of the visitor with digest `hash`, or the one it gets when first seen.
pub open spec fn visitor_id_for(hashes: Seq<Seq<u8>>, hash: Seq<u8>) -> int {
    if has_visitor(hashes, hash) {
        (choose|i: int| 0 <= i < hashes.len() && #[trigger] hashes[i] == hash) + 1
    } else {
        hashes.len() + 1int
    }
}

/// What one ingestion does: it appends the event, creates the path row and the
/// visitor on first sight, counts one more request on the path, and one more
/// unique visitor exactly when the (visitor, path) pair had no prior event.
pub open spec fn ingested(
    pre: Analytics,
    post: Analytics,
    rd: RequestData,
    created_at: i64,
    id: u64,
) -> bool {
    let rows = pre.path_rows();
    let known = has_path(rows, rd.path@);
    let pid = path_id_for(rows, rd.path@);
    let hashes = pre.visitor_hashes();
    let digest = sha256_of(rd.ip_address@);
    let vid = visitor_id_for(hashes, digest);
    let first_visit = !seen(pre.event_log(), vid as u64, pid as u64);
    let row = post.path_rows()[pid - 1];
    &&& id == pre.event_log().len() + 1
    &&& post.event_log() == pre.event_log().push(
        (RequestEvent {
            id,
            visitor_id: vid as u64,
            path_id: pid as u64,
            user_agent: rd.user_agent,
            method: method_of_text(rd.method@).code(),
            status: rd.status,
            created_at,
        }),
    )
    &&& post.visitor_hashes() == if has_visitor(hashes, digest) {
        hashes
    } else {
        hashes.push(digest)
    }
    &&& post.path_rows().len() == rows.len() + if known {
        0int
    } else {
        1int
    }
    &&& forall|i: int|
        0 <= i < rows.len() && i != pid - 1 ==> #[trigger] post.path_rows()[i] == rows[i]
    &&& row.path@ == rd.path@
    &&& row.path_id == pid
    &&& row.total_requests == if known {
        rows[pid - 1].total_requests + 1
    } else {
        1
    }
    &&& row.unique_visitors == (if known {
        rows[pid - 1].unique_visitors as int
    } else {
        0
    }) + if first_visit {
        1int
    } else {
        0
    }
}

/// Row `i` has identity `i + 1` and counters equal to its counts over the log.
pub open spec fn rows_match(rows: Seq<Visits>, events: Seq<RequestEvent>) -> bool {
    forall|i: int|
        0 <= i < rows.len() ==> {
            &&& #[trigger] rows[i].path_id == i + 1
            &&& rows[i].total_requests == total_count(events, (i + 1) as u64)
            &&& rows[i].unique_visitors == unique_count(events, (i + 1) as u64)
        }
}

/// Event `k` has identity `k + 1` and names a known path and visitor.
pub open spec fn events_name_known(events: Seq<RequestEvent>, n_paths: nat, n_visitors: nat) -> bool {
    forall|k: int|
        #![trigger events[k]]
        0 <= k < events.len() ==> {
            &&& events[k].id == k + 1
            &&& 1 <= events[k].path_id <= n_paths
            &&& 1 <= events[k].visitor_id <= n_visitors
        }
}

/// The store. Rows are numbered from 1 in the order of their creation.
pub struct Analytics {
    paths: Vec<Visits>,
    visitors: Vec<Vec<u8>>,
    events: Vec<RequestEvent>,
}

impl Analytics {
    /// The path rows; row `i` has identity `i + 1`.
    pub closed spec fn path_rows(&self) -> Seq<Visits> {
        self.paths@
    }

    /// The visitor digests; digest `i` belongs to the visitor with identity `i + 1`.
    pub closed spec fn visitor_hashes(&self) -> Seq<Seq<u8>> {
        self.visitors@.map_values(|h: Vec<u8>| h@)
    }

    /// The event log, oldest first.
    pub closed spec fn event_log(&self) -> Seq<RequestEvent> {
        self.events@
    }

    /// Identities follow row order, paths and digests are unique, every event
    /// names a known path and visitor, and every counter equals its count over
    /// the event log.
    pub closed spec fn wf(&self) -> bool {
        &&& self.rows_match_log()
        &&& self.paths_distinct()
        &&& self.hashes_distinct()
        &&& self.events_in_range()
    }

    closed spec fn rows_match_log(&self) -> bool {
        rows_match(self.paths@, self.events@)
    }

    closed spec fn events_in_range(&self) -> bool {
        events_name_known(self.events@, self.paths@.len(), self.visitor_hashes().len())
    }

    closed spec fn paths_distinct(&self) -> bool {
        let rows = self.paths@;
        forall|i: int, j: int|
            0 <= i < rows.len() && 0 <= j < rows.len() && i != j ==> #[trigger] rows[i].path@
                != #[trigger] rows[j].path@
    }

    closed spec fn hashes_distinct(&self) -> bool {
        let hashes = self.visitor_hashes();
        forall|i: int, j: int|
            0 <= i < hashes.len() && 0 <= j < hashes.len() && i != j ==> #[trigger] hashes[i]
                != #[trigger] hashes[j]
    }

    /// No further row fits in some table.
    pub open spec fn is_full(&self) -> bool {
        ||| self.event_log().len() >= u64::MAX
        ||| self.path_rows().len() >= u64::MAX
        ||| self.visitor_hashes().len() >= u64::MAX
    }

    /// An empty store.
    pub fn new() -> (r: Self)
        ensures
            r.wf(),
            r.path_rows().len() == 0,
            r.visitor_hashes().len() == 0,
            r.event_log().len() == 0,
    {
        let r = Analytics { paths: Vec::new(), visitors: Vec::new(), events: Vec::new() };
        assert(r.visitor_hashes() =~= Seq::<Seq<u8>>::empty());
        r
    }

    fn find_path(&self, path: &String) -> (r: Option<usize>)
        requires
            self.paths_distinct(),
        ensures
            match r {
                Some(i) => i < self.path_rows().len() && self.path_rows()[i as int].path@ == path@
                    && path_id_for(self.path_rows(), path@) == i + 1,
                None => !has_path(self.path_rows(), path@) && path_id_for(self.path_rows(), path@)
                    == self.path_rows().len() + 1,
            },
    {
        let mut i: usize = 0;
        while i < self.paths.len()
            invariant
                self.paths_distinct(),
                i <= self.paths.len(),
                forall|j: int| 0 <= j < i ==> #[trigger] self.paths@[j].path@ != path@,
            decreases self.paths.len() - i,
        {
            if self.paths[i].path == *path {
                let ghost rows = self.paths@;
                assert(has_path(rows, path@));
                let ghost c = choose|c: int| 0 <= c < rows.len() && #[trigger] rows[c].path@ == path@;
                proof {
                    if c != i as int {
                        assert(rows[c].path@ != rows[i as int].path@);
                    }
                }
                return Some(i);
            }
            i = i + 1;
        }
        None
    }

    fn find_visitor(&self, hash: &Vec<u8>) -> (r: Option<usize>)
        requires
            self.hashes_distinct(),
        ensures
            match r {
                Some(i) => i < self.visitor_hashes().len() && self.visitor_hashes()[i as int]
                    == hash@ && visitor_id_for(self.visitor_hashes(), hash@) == i + 1,
                None => !has_visitor(self.visitor_hashes(), hash@) && visitor_id_for(
                    self.visitor_hashes(),
                    hash@,
                ) == self.visitor_hashes().len() + 1,
            },
    {
        let ghost hashes = self.visitor_hashes();
        let mut i: usize = 0;
        while i < self.visitors.len()
            invariant
                self.hashes_distinct(),
                i <= self.visitors.len(),
                hashes == self.visitor_hashes(),
                hashes.len() == self.visitors@.len(),
                forall|j: int| 0 <= j < i ==> #[trigger] hashes[j] != hash@,
            decreases self.visitors.len() - i,
        {
            if bytes_eq(&self.visitors[i], hash) {
                assert(hashes[i as int] == hash@);
                assert(has_visitor(hashes, hash@));
                let ghost c = choose|c: int| 0 <= c < hashes.len() && #[trigger] hashes[c] == hash@;
                proof {
                    if c != i as int {
                        assert(hashes[c] != hashes[i as int]);
                    }
                }
                return Some(i);
            }
            i = i + 1;
        }
        None
    }

    /// Records one request observation at `created_at` (epoch milliseconds) as a
    /// single step: on success every effect of `ingested` holds, and on failure
    /// nothing changed.
    pub fn log_request(&mut self, request_data: &RequestData, created_at: i64) -> (r: Result<
        u64,
        StoreError,
    >)
        requires
            old(self).wf(),
        ensures
            final(self).wf(),
            old(self).is_full() <==> r is Err,
            old(self).is_full() ==> *final(self) == *old(self),
            r matches Ok(id) ==> ingested(*old(self), *final(self), *request_data, created_at, id),
    {
        if self.events.len() as u64 == u64::MAX || self.paths.len() as u64 == u64::MAX
            || self.visitors.len() as u64 == u64::MAX {
            return Err(StoreError::Full);
        }
        let ghost events = self.events@;
        let ghost rows = self.paths@;
        let ghost hashes = self.visitor_hashes();
        let digest = hash_address(request_data.ip_address.as_str());
        let method = Method::from_text(request_data.method.as_str()).to_int();

        // the path row, created with zero counters on first sight
        let path_idx: usize = match self.find_path(&request_data.path) {
            Some(i) => i,
            None => {
                let path_id = self.paths.len() as u64 + 1;
                let row = Visits {
                    path_id,
                    path: request_data.path.clone(),
                    unique_visitors: 0,
                    total_requests: 0,
                };
                proof {
                    assert forall|k: int| 0 <= k < events.len() implies #[trigger] events[k].path_id
                        != path_id by {
                        assert(events[k].id == k + 1);
                    }
                    lemma_counts_absent(events, path_id);
                }
                self.paths.push(row);
                self.paths.len() - 1
            },
        };
        let path_id = path_idx as u64 + 1;
        let ghost mid = self.paths@;
        proof {
            lemma_counts_bounded(events, path_id);
            assert(mid[path_idx as int].path_id == path_id);
            assert(forall|i: int| 0 <= i < rows.len() ==> mid[i] == rows[i]);
            assert(mid.len() == rows.len() + if has_path(rows, request_data.path@) {
                0int
            } else {
                1int
            });
        }
        // every request counts
        let total = self.paths[path_idx].total_requests + 1;
        self.paths[path_idx].total_requests = total;

        // the visitor, created on first sight of its digest
        let visitor_idx: usize = match self.find_visitor(&digest) {
            Some(i) => i,
            None => {
                self.visitors.push(digest);
                proof {
                    assert(self.visitor_hashes() =~= hashes.push(digest@));
                }
                self.visitors.len() - 1
            },
        };
        let visitor_id = visitor_idx as u64 + 1;
        proof {
            assert(self.visitor_hashes() == if has_visitor(hashes, digest@) {
                hashes
            } else {
                hashes.push(digest@)
            });
            assert(visitor_idx < self.visitor_hashes().len());
        }

        // the uniqueness check reads the log before this event is appended
        let prior = self.exists_prior_event(visitor_id, path_id);
        if !prior {
            let unique = self.paths[path_idx].unique_visitors + 1;
            self.paths[path_idx].unique_visitors = unique;
        }
        let id = self.events.len() as u64 + 1;
        let event = RequestEvent {
            id,
            visitor_id,
            path_id,
            user_agent: request_data.user_agent.clone(),
            method,
            status: request_data.status,
            created_at,
        };
        let ghost e = event;
        self.events.push(event);
        let ghost post = self.paths@;
        let ghost log = self.events@;
        assert(rows_match(post, log)) by {
            assert forall|i: int| 0 <= i < post.len() implies {
                &&& #[trigger] post[i].path_id == i + 1
                &&& post[i].total_requests == total_count(log, (i + 1) as u64)
                &&& post[i].unique_visitors == unique_count(log, (i + 1) as u64)
            } by {
                lemma_counts_push(events, e, (i + 1) as u64);
                if i != path_idx as int {
                    assert(post[i] == mid[i]);
                    assert(mid[i] == rows[i]);
                    assert(rows[i].path_id == i + 1);
                }
            }
        }
        let ghost n_visitors = self.visitor_hashes().len();
        assert(events_name_known(log, post.len(), n_visitors)) by {
            assert forall|k: int| #![trigger log[k]] 0 <= k < log.len() implies {
                &&& log[k].id == k + 1
                &&& 1 <= log[k].path_id <= post.len()
                &&& 1 <= log[k].visitor_id <= n_visitors
            } by {
                if k < events.len() {
                    assert(log[k] == events[k]);
                    assert(events[k].id == k + 1);
                }
            }
        }
        assert(self.paths_distinct()) by {
            assert forall|i: int, j: int|
                0 <= i < post.len() && 0 <= j < post.len() && i != j implies #[trigger] post[i].path@
                != #[trigger] post[j].path@ by {
                assert(post[i].path@ == mid[i].path@);
                assert(post[j].path@ == mid[j].path@);
                if i < rows.len() && j < rows.len() {
                    assert(rows[i].path@ != rows[j].path@);
                }
            }
        }
        assert(self.hashes_distinct()) by {
            let hs = self.visitor_hashes();
            assert forall|i: int, j: int|
                0 <= i < hs.len() && 0 <= j < hs.len() && i != j implies #[trigger] hs[i]
                != #[trigger] hs[j] by {
                if i < hashes.len() && j < hashes.len() {
                    assert(hashes[i] != hashes[j]);
                }
            }
        }
        Ok(id)
    }

    pub(crate) fn rows(&self) -> (r: &Vec<Visits>)
        ensures
            r@ == self.path_rows(),
    {
        &self.paths
    }

    /// The counters are a cache of the event log: after every ingestion, each
    /// path's request count is the number of its events and its unique-visitor
    /// count is the number of distinct visitors among them.
    pub proof fn lemma_counters_match_log(&self)
        requires
            self.wf(),
        ensures
            forall|i: int|
                #![trigger self.path_rows()[i]]
                0 <= i < self.path_rows().len() ==> {
                    &&& self.path_rows()[i].path_id == i + 1
                    &&& self.path_rows()[i].total_requests == total_count(
                        self.event_log(),
                        (i + 1) as u64,
                    )
                    &&& self.path_rows()[i].unique_visitors == visitors_of(
                        self.event_log(),
                        (i + 1) as u64,
                    ).len()
                    &&& self.path_rows()[i].unique_visitors <= self.path_rows()[i].total_requests
                },
    {
        assert forall|i: int| #![trigger self.path_rows()[i]] 0 <= i < self.path_rows().len() implies {
            &&& self.path_rows()[i].path_id == i + 1
            &&& self.path_rows()[i].total_requests == total_count(self.event_log(), (i + 1) as u64)
            &&& self.path_rows()[i].unique_visitors == visitors_of(
                self.event_log(),
                (i + 1) as u64,
            ).len()
            &&& self.path_rows()[i].unique_visitors <= self.path_rows()[i].total_requests
        } by {
            assert(rows_match(self.paths@, self.events@));
            assert(self.paths@[i].path_id == i + 1);
            lemma_unique_is_distinct_visitors(self.events@, (i + 1) as u64);
            lemma_counts_bounded(self.events@, (i + 1) as u64);
        }
    }

    /// A repeat visit is not unique: after one ingestion of an address and a
    /// path, a second ingestion of the same address and path counts one more
    /// request on the same path row and leaves its unique visitors as they were.
    pub proof fn lemma_repeat_visit(
        a0: Analytics,
        a1: Analytics,
        a2: Analytics,
        first: RequestData,
        second: RequestData,
        t1: i64,
        t2: i64,
        id1: u64,
        id2: u64,
    )
        requires
            a0.wf(),
            a1.wf(),
            ingested(a0, a1, first, t1, id1),
            ingested(a1, a2, second, t2, id2),
            second.path@ == first.path@,
            second.ip_address@ == first.ip_address@,
        ensures
            path_id_for(a1.path_rows(), second.path@) == path_id_for(a0.path_rows(), first.path@),
            ({
                let i = path_id_for(a1.path_rows(), second.path@) - 1;
                &&& a2.path_rows()[i].total_requests == a1.path_rows()[i].total_requests + 1
                &&& a2.path_rows()[i].unique_visitors == a1.path_rows()[i].unique_visitors
            }),
    {
        let path = first.path@;
        let pid = path_id_for(a0.path_rows(), path);
        let rows1 = a1.path_rows();
        assert(rows1[pid - 1].path@ == path);
        assert(has_path(rows1, path));
        let c = choose|c: int| 0 <= c < rows1.len() && #[trigger] rows1[c].path@ == path;
        if c != pid - 1 {
            assert(rows1[c].path@ != rows1[pid - 1].path@);
        }
        let digest = sha256_of(first.ip_address@);
        let h0 = a0.visitor_hashes();
        let h1 = a1.visitor_hashes();
        let vid = visitor_id_for(h0, digest);
        if !has_visitor(h0, digest) {
            assert(h1[h0.len() as int] == digest);
        }
        assert(h1[vid - 1] == digest);
        assert(has_visitor(h1, digest));
        let d = choose|d: int| 0 <= d < h1.len() && #[trigger] h1[d] == digest;
        if d != vid - 1 {
            assert(h1[d] != h1[vid - 1]);
        }
        let log1 = a1.event_log();
        assert(log1[log1.len() - 1].visitor_id == vid as u64);
        assert(seen(log1, vid as u64, pid as u64));
    }

    /// The counters of the path with identity `id`, if there is one.
    pub fn visits_id(&self, id: u64) -> (r: Option<Visits>)
        requires
            self.wf(),
        ensures
            match r {
                Some(v) => 1 <= id <= self.path_rows().len() && v == self.path_rows()[id - 1],
                None => !(1 <= id <= self.path_rows().len()),
            },
    {
        if id >= 1 && id <= self.paths.len() as u64 {
            Some(copy_visits(&self.paths[(id - 1) as usize]))
        } else {
            None
        }
    }

    /// The counters of the path `path`, if it is tracked.
    pub fn visits_path(&self, path: &String) -> (r: Option<Visits>)
        requires
            self.wf(),
        ensures
            match r {
                Some(v) => has_path(self.path_rows(), path@) && v == self.path_rows()[path_id_for(
                    self.path_rows(),
                    path@,
                ) - 1],
                None => !has_path(self.path_rows(), path@),
            },
    {
        match self.find_path(path) {
            Some(i) => Some(copy_visits(&self.paths[i])),
            None => None,
        }
    }

    /// The event with identity `id`, if there is one.
    pub fn event_by_id(&self, id: u64) -> (r: Option<RequestEvent>)
        requires
            self.wf(),
        ensures
            match r {
                Some(e) => 1 <= id <= self.event_log().len() && e == self.event_log()[id - 1],
                None => !(1 <= id <= self.event_log().len()),
            },
    {
        if id >= 1 && id <= self.events.len() as u64 {
            let e = &self.events[(id - 1) as usize];
            Some(
                RequestEvent {
                    id: e.id,
                    visitor_id: e.visitor_id,
                    path_id: e.path_id,
                    user_agent: e.user_agent.clone(),
                    method: e.method,
                    status: e.status,
                    created_at: e.created_at,
                },
            )
        } else {
            None
        }
    }

    /// Number of recorded events.
    pub fn event_count(&self) -> (r: usize)
        ensures
            r == self.event_log().len(),
    {
        self.events.len()
    }

    /// Number of tracked paths.
    pub fn path_count(&self) -> (r: usize)
        ensures
            r == self.path_rows().len(),
    {
        self.paths.len()
    }

    pub(crate) fn events(&self) -> (r: &Vec<RequestEvent>)
        ensures
            r@ == self.event_log(),
    {
        &self.events
    }

    /// Whether some event already pairs the visitor with the path.
    pub fn exists_prior_event(&self, visitor_id: u64, path_id: u64) -> (r: bool)
        ensures
            r == seen(self.event_log(), visitor_id, path_id),
    {
        let mut k: usize = 0;
        while k < self.events.len()
            invariant
                k <= self.events.len(),
                forall|j: int|
                    0 <= j < k ==> !(#[trigger] self.events@[j].visitor_id == visitor_id
                        && self.events@[j].path_id == path_id),
            decreases self.events.len() - k,
        {
            if self.events[k].visitor_id == visitor_id && self.events[k].path_id == path_id {
                assert(self.events@[k as int].visitor_id == visitor_id);
                return true;
            }
            k = k + 1;
        }
        false
    }
}

pub(crate) fn copy_visits(v: &Visits) -> (r: Visits)
    ensures
        r == *v,
{
    Visits {
        path_id: v.path_id,
        path: v.path.clone(),
        unique_visitors: v.unique_visitors,
        total_requests: v.total_requests,
    }
}

fn bytes_eq(a: &Vec<u8>, b: &Vec<u8>) -> (r: bool)
    ensures
        r == (a@ == b@),
{
    if a.len() != b.len() {
        return false;
    }
    let mut i: usize = 0;
    while i < a.len()
        invariant
            i <= a.len(),
            a.len() == b.len(),
            forall|j: int| 0 <= j < i ==> a@[j] == b@[j],
        decreases a.len() - i,
    {
        if a[i] != b[i] {
            return false;
        }
        i = i + 1;
    }
    assert(a@ =~= b@);
    true
}

} // verus!
