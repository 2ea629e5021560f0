use site_analytics::graph::{GraphView, Graphnode, DAY_MILLIS, GRAPH_BUCKETS, HALF_HOUR_MILLIS, MONTH_MILLIS};
use site_analytics::identity::hash_address;
use site_analytics::listing::{RankKey, PAGE_SIZE};
use site_analytics::method::Method;
use site_analytics::store::{Analytics, RequestData, Visits};

fn observation(addr: &str, path: &str, method: &str, status: u16) -> RequestData {
    RequestData::new(
        addr.to_string(),
        path.to_string(),
        "test-agent".to_string(),
        method.to_string(),
        status,
    )
}

fn record(a: &mut Analytics, addr: &str, path: &str, t: i64) -> u64 {
    a.log_request(&observation(addr, path, "GET", 200), t).unwrap()
}

#[test]
fn method_codes_round_trip() {
    let all = [
        Method::GET,
        Method::HEAD,
        Method::POST,
        Method::PUT,
        Method::DELETE,
        Method::CONNECT,
        Method::OPTIONS,
        Method::TRACE,
        Method::PATCH,
        Method::INVALID,
    ];
    for (i, m) in all.iter().enumerate() {
        assert_eq!(m.to_int(), (i + 1) as u8);
        assert_eq!(Method::from_int(m.to_int()), *m);
    }
    assert_eq!(Method::from_int(0), Method::INVALID);
    assert_eq!(Method::from_int(11), Method::INVALID);
    assert_eq!(Method::from_int(255), Method::INVALID);
}

#[test]
fn method_from_text_names() {
    assert_eq!(Method::from_text("GET"), Method::GET);
    assert_eq!(Method::from_text("HEAD"), Method::HEAD);
    assert_eq!(Method::from_text("POST"), Method::POST);
    assert_eq!(Method::from_text("PUT"), Method::PUT);
    assert_eq!(Method::from_text("DELETE"), Method::DELETE);
    assert_eq!(Method::from_text("CONNECT"), Method::CONNECT);
    assert_eq!(Method::from_text("OPTIONS"), Method::OPTIONS);
    assert_eq!(Method::from_text("TRACE"), Method::TRACE);
    assert_eq!(Method::from_text("PATCH"), Method::PATCH);
    assert_eq!(Method::from_text("FOOBAR"), Method::INVALID);
    assert_eq!(Method::from_text("get"), Method::INVALID);
    assert_eq!(Method::from_text(""), Method::INVALID);
}

#[test]
fn hash_is_sha256_of_address() {
    let d = hash_address("abc");
    let expected: Vec<u8> = vec![
        0xba, 0x78, 0x16, 0xbf, 0x8f, 0x01, 0xcf, 0xea, 0x41, 0x41, 0x40, 0xde, 0x5d, 0xae, 0x22,
        0x23, 0xb0, 0x03, 0x61, 0xa3, 0x96, 0x17, 0x7a, 0x9c, 0xb4, 0x10, 0xff, 0x61, 0xf2, 0x00,
        0x15, 0xad,
    ];
    assert_eq!(d, expected);
}

#[test]
fn hash_same_address_same_digest() {
    let a = hash_address("1.2.3.4");
    let b = hash_address("1.2.3.4");
    assert_eq!(a.len(), 32);
    assert_eq!(a, b);
    let c = hash_address("5.6.7.8");
    assert_ne!(a, c);
    assert_ne!(a, "1.2.3.4".as_bytes().to_vec());
}

#[test]
fn three_ingestions_two_visitors() {
    let mut a = Analytics::new();
    record(&mut a, "1.2.3.4", "/x", 1000);
    record(&mut a, "1.2.3.4", "/x", 2000);
    record(&mut a, "5.6.7.8", "/x", 3000);
    let v = a.visits_path(&"/x".to_string()).unwrap();
    assert_eq!(v.path_id, 1);
    assert_eq!(v.path, "/x");
    assert_eq!(v.total_requests, 3);
    assert_eq!(v.unique_visitors, 2);
}

#[test]
fn first_visit_counts_unique_repeat_does_not() {
    let mut a = Analytics::new();
    record(&mut a, "9.9.9.9", "/p", 10);
    let v = a.visits_id(1).unwrap();
    assert_eq!((v.total_requests, v.unique_visitors), (1, 1));
    record(&mut a, "9.9.9.9", "/p", 20);
    let v = a.visits_id(1).unwrap();
    assert_eq!((v.total_requests, v.unique_visitors), (2, 1));
    // the same visitor on another path is a unique visit there
    record(&mut a, "9.9.9.9", "/q", 30);
    let q = a.visits_path(&"/q".to_string()).unwrap();
    assert_eq!((q.path_id, q.total_requests, q.unique_visitors), (2, 1, 1));
}

#[test]
fn unknown_method_is_recorded_as_invalid() {
    let mut a = Analytics::new();
    let id = a.log_request(&observation("1.1.1.1", "/m", "FOOBAR", 404), 77).unwrap();
    assert_eq!(id, 1);
    let e = a.event_by_id(id).unwrap();
    assert_eq!(e.method, Method::INVALID.to_int());
    assert_eq!(Method::from_int(e.method), Method::INVALID);
    assert_eq!(e.status, 404);
    assert_eq!(e.created_at, 77);
    assert_eq!(e.user_agent, "test-agent");
    assert_eq!(e.path_id, 1);
    assert_eq!(e.visitor_id, 1);
    assert_eq!(a.visits_id(1).unwrap().total_requests, 1);
}

#[test]
fn event_records_observation() {
    let mut a = Analytics::new();
    let id1 = a.log_request(&observation("1.1.1.1", "/a", "POST", 201), 5).unwrap();
    let id2 = a.log_request(&observation("2.2.2.2", "/b", "DELETE", 500), 6).unwrap();
    assert_eq!((id1, id2), (1, 2));
    let e = a.event_by_id(2).unwrap();
    assert_eq!((e.id, e.visitor_id, e.path_id, e.method, e.status, e.created_at), (2, 2, 2, 5, 500, 6));
    assert!(a.event_by_id(0).is_none());
    assert!(a.event_by_id(3).is_none());
    assert_eq!(a.event_count(), 2);
}

#[test]
fn counters_match_recount_of_log() {
    let mut a = Analytics::new();
    let plan = [
        ("1.0.0.1", "/a"),
        ("1.0.0.2", "/a"),
        ("1.0.0.1", "/b"),
        ("1.0.0.1", "/a"),
        ("1.0.0.3", "/c"),
        ("1.0.0.2", "/a"),
        ("1.0.0.3", "/b"),
        ("1.0.0.1", "/b"),
    ];
    for (t, (addr, path)) in plan.iter().enumerate() {
        record(&mut a, addr, path, t as i64);
        for pid in 1..=a.path_count() as u64 {
            let row = a.visits_id(pid).unwrap();
            let mut total = 0u64;
            let mut visitors: Vec<u64> = Vec::new();
            for id in 1..=a.event_count() as u64 {
                let e = a.event_by_id(id).unwrap();
                if e.path_id == pid {
                    total += 1;
                    if !visitors.contains(&e.visitor_id) {
                        visitors.push(e.visitor_id);
                    }
                }
            }
            assert_eq!(row.total_requests, total);
            assert_eq!(row.unique_visitors, visitors.len() as u64);
        }
    }
    let a_row = a.visits_path(&"/a".to_string()).unwrap();
    assert_eq!((a_row.total_requests, a_row.unique_visitors), (4, 2));
    let b_row = a.visits_path(&"/b".to_string()).unwrap();
    assert_eq!((b_row.total_requests, b_row.unique_visitors), (3, 2));
}

#[test]
fn lookups_not_found() {
    let mut a = Analytics::new();
    assert!(a.visits_id(1).is_none());
    assert!(a.visits_path(&"/x".to_string()).is_none());
    record(&mut a, "1.2.3.4", "/x", 1);
    assert!(a.visits_id(0).is_none());
    assert!(a.visits_id(2).is_none());
    assert!(a.visits_path(&"/y".to_string()).is_none());
    assert!(a.visits_path(&"/x".to_string()).is_some());
}

#[test]
fn range_count_is_open_below_closed_above() {
    let mut a = Analytics::new();
    record(&mut a, "1.2.3.4", "/r", 100);
    record(&mut a, "1.2.3.4", "/r", 200);
    record(&mut a, "1.2.3.4", "/other", 150);
    assert_eq!(a.count_in_range(1, 100, 200), 1);
    assert_eq!(a.count_in_range(1, 99, 200), 2);
    assert_eq!(a.count_in_range(1, 100, 199), 0);
    assert_eq!(a.count_in_range(2, 0, 1000), 1);
    assert_eq!(a.count_in_range(1, 200, 100), 0);
}

fn series_sample() -> Analytics {
    let mut a = Analytics::new();
    for (i, t) in [1000i64, 1500, 1999, 2000, 2001, 2500, 3000, 3000, 4000].iter().enumerate() {
        let addr = format!("10.0.0.{}", i % 3);
        record(&mut a, &addr, "/g", *t);
    }
    record(&mut a, "10.0.0.9", "/h", 2500);
    a
}

#[test]
fn series_buckets_exact() {
    let a = series_sample();
    let s = a.build_series(1, 1000, 3, 3000);
    let expected = vec![
        Graphnode { amount: 1, timestamp_start: 0, timestamp_end: 1000 },
        Graphnode { amount: 3, timestamp_start: 1000, timestamp_end: 2000 },
        Graphnode { amount: 4, timestamp_start: 2000, timestamp_end: 3000 },
    ];
    // 1000 falls in (0, 1000]; 1500, 1999, 2000 in (1000, 2000]; 2001, 2500, 3000, 3000 in (2000, 3000]
    assert_eq!(s, expected);
}

#[test]
fn series_twice_is_identical() {
    let a = series_sample();
    let s1 = a.build_series(1, 700, 6, 4100);
    let s2 = a.build_series(1, 700, 6, 4100);
    assert_eq!(s1, s2);
}

#[test]
fn series_partitions_window() {
    let a = series_sample();
    let (width, count, now) = (333i64, 9u64, 4000i64);
    let s = a.build_series(1, width, count, now);
    assert_eq!(s.len(), count as usize);
    assert_eq!(s[0].timestamp_start, now - width * count as i64);
    assert_eq!(s[s.len() - 1].timestamp_end, now);
    for k in 0..s.len() - 1 {
        assert_eq!(s[k].timestamp_end, s[k + 1].timestamp_start);
        assert_eq!(s[k].timestamp_end - s[k].timestamp_start, width);
    }
    let sum: u64 = s.iter().map(|n| n.amount).sum();
    assert_eq!(sum, a.count_in_range(1, now - width * count as i64, now));
    assert_eq!(sum, 8);
}

#[test]
fn series_zero_buckets_is_empty() {
    let a = series_sample();
    assert!(a.build_series(1, 1000, 0, 3000).is_empty());
}

#[test]
fn preset_graphs() {
    let a = series_sample();
    let now = 10_000i64;
    let views: Vec<GraphView> = a.path_view(1, now);
    assert_eq!(views.len(), 3);
    assert_eq!(views[0].title, "Half Hourly");
    assert_eq!(views[1].title, "Daily");
    assert_eq!(views[2].title, "Monthly (30 days)");
    let widths = [HALF_HOUR_MILLIS, DAY_MILLIS, MONTH_MILLIS];
    for (v, w) in views.iter().zip(widths.iter()) {
        assert_eq!(v.timeline.len(), GRAPH_BUCKETS as usize);
        let last = v.timeline[v.timeline.len() - 1];
        assert_eq!((last.timestamp_start, last.timestamp_end, last.amount), (now - w, now, 9));
        assert_eq!(v.timeline[0].timestamp_start, now - w * 20);
    }
    assert_eq!(HALF_HOUR_MILLIS, 30 * 60 * 1000);
    assert_eq!(DAY_MILLIS, 24 * 60 * 60 * 1000);
    assert_eq!(MONTH_MILLIS, 30 * 24 * 60 * 60 * 1000);
    let g = a.get_graph(2, 1000, 3000, "t".to_string());
    assert_eq!(g.title, "t");
    assert_eq!(g.timeline.len(), 20);
    assert_eq!(g.timeline[19].amount, 1);
}

fn sixteen_paths() -> Analytics {
    let mut a = Analytics::new();
    for p in 0..16u64 {
        for r in 0..(p % 5 + 1) {
            record(&mut a, &format!("10.1.{}.{}", p, r), &format!("/p{}", p), (p * 10 + r) as i64);
        }
    }
    a
}

#[test]
fn pagination_sixteen_paths() {
    let a = sixteen_paths();
    let (rows, pages) = a.list_page(PAGE_SIZE, 1);
    assert_eq!(PAGE_SIZE, 15);
    assert_eq!(rows.len(), 15);
    assert_eq!(pages, 2);
    let (rows2, pages2) = a.list_page(15, 2);
    assert_eq!(rows2.len(), 1);
    assert_eq!(pages2, 2);
    let (rows3, _) = a.list_page(15, 3);
    assert!(rows3.is_empty());
}

#[test]
fn pagination_orders_by_total_requests() {
    let a = sixteen_paths();
    let (rows, _) = a.list_page(16, 1);
    for k in 0..rows.len() - 1 {
        let (x, y): (&Visits, &Visits) = (&rows[k], &rows[k + 1]);
        assert!(
            x.total_requests > y.total_requests
                || (x.total_requests == y.total_requests && x.path_id < y.path_id)
        );
    }
    assert_eq!(rows[0].path, "/p4");
    assert_eq!(rows[0].total_requests, 5);
    let (page2, _) = a.list_page(15, 2);
    assert_eq!(page2[0].path_id, rows[15].path_id);
    let (small, pages) = a.list_page(5, 2);
    assert_eq!(pages, 4);
    assert_eq!(small.len(), 5);
    assert_eq!(small[0].path_id, rows[5].path_id);
}

#[test]
fn page_count_exact_multiple() {
    let mut a = Analytics::new();
    assert_eq!(a.list_page(15, 1).1, 0);
    for p in 0..30 {
        record(&mut a, "1.2.3.4", &format!("/{}", p), p);
    }
    assert_eq!(a.list_page(15, 1).1, 2);
    assert_eq!(a.list_page(1, 1).1, 30);
    assert_eq!(a.list_page(u64::MAX, u64::MAX).0.len(), 0);
}

#[test]
fn top_by_unique_visitors() {
    let mut a = Analytics::new();
    for _ in 0..5 {
        record(&mut a, "1.1.1.1", "/busy", 1);
    }
    record(&mut a, "2.2.2.1", "/wide", 1);
    record(&mut a, "2.2.2.2", "/wide", 1);
    record(&mut a, "2.2.2.3", "/wide", 1);
    record(&mut a, "3.3.3.1", "/mid", 1);
    record(&mut a, "3.3.3.2", "/mid", 1);
    let top = a.list_top(2);
    assert_eq!(top.len(), 2);
    assert_eq!(top[0].path, "/wide");
    assert_eq!(top[1].path, "/mid");
    assert_eq!(a.list_top(10).len(), 3);
    assert_eq!(a.list_top(10)[2].path, "/busy");
    let ord = a.ranked(RankKey::TotalRequests);
    assert_eq!(ord, vec![0, 1, 2]);
}
