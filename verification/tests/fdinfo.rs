use xetop::collectors::fdinfo::{
    fdinfo_engine_name, lookup_engine, merge_scan, merge_snapshot, parse_fdinfo, ClientSnapshot,
    FdinfoCollector, FdinfoCounters, ENGINE_COUNT,
};

const SAMPLE: &str = "pos:\t0\nflags:\t02100002\nmnt_id:\t26\ndrm-driver:\txe\ndrm-client-id:\t25\ndrm-pdev:\t0000:00:02.0\ndrm-total-system:\t0\ndrm-total-gtt:\t377400 KiB\ndrm-shared-gtt:\t116992 KiB\ndrm-cycles-rcs:\t534601666\ndrm-total-cycles-rcs:\t35989466732\ndrm-cycles-vcs:\t0\ndrm-total-cycles-vcs:\t35989466732\ndrm-cycles-vecs:\t0\ndrm-total-cycles-vecs:\t35989466732\ndrm-cycles-bcs:\t2880\ndrm-total-cycles-bcs:\t35989466732\ndrm-cycles-ccs:\t3737\ndrm-total-cycles-ccs:\t35989466732\n";

fn counts(c: &FdinfoCounters, name: &str) -> Option<(u64, u64)> {
    lookup_engine(&c.engine_cycles, name.as_bytes())
}

#[test]
fn parses_xe_fdinfo_sample() {
    let c = parse_fdinfo(SAMPLE.as_bytes()).expect("xe client");
    assert_eq!(c.client_id, 25);
    assert_eq!(c.gtt_kb, 377400);
    assert_eq!(c.engine_cycles.len(), 5);
    assert_eq!(counts(&c, "rcs"), Some((534601666, 35989466732)));
    assert_eq!(counts(&c, "vcs"), Some((0, 35989466732)));
    assert_eq!(counts(&c, "bcs"), Some((2880, 35989466732)));
    assert_eq!(counts(&c, "ccs"), Some((3737, 35989466732)));
    assert_eq!(counts(&c, "vecs"), Some((0, 35989466732)));
    assert_eq!(counts(&c, "xcs"), None);
    // Engines keep the order in which they first appear.
    let names: Vec<&[u8]> = c.engine_cycles.iter().map(|e| e.engine.as_slice()).collect();
    assert_eq!(names, vec![&b"rcs"[..], b"vcs", b"vecs", b"bcs", b"ccs"]);
}

#[test]
fn accepts_space_separated_driver_tag() {
    let c = parse_fdinfo(b"drm-driver: xe\ndrm-client-id: 7\n").expect("xe client");
    assert_eq!(c.client_id, 7);
    assert_eq!(c.gtt_kb, 0);
    assert!(c.engine_cycles.is_empty());
}

#[test]
fn rejects_other_drivers() {
    assert!(parse_fdinfo(b"drm-driver:\ti915\ndrm-client-id:\t3\n").is_none());
    assert!(parse_fdinfo(b"").is_none());
    assert!(parse_fdinfo(b"drm-client-id:\t3\n").is_none());
}

#[test]
fn rejects_missing_or_zero_client_id() {
    assert!(parse_fdinfo(b"drm-driver:\txe\ndrm-total-gtt:\t12 KiB\n").is_none());
    assert!(parse_fdinfo(b"drm-driver:\txe\ndrm-client-id:\t0\n").is_none());
    assert!(parse_fdinfo(b"drm-driver:\txe\ndrm-client-id:\tabc\n").is_none());
    // A later line resets an earlier id.
    assert!(parse_fdinfo(b"drm-driver:\txe\ndrm-client-id:\t4\ndrm-client-id:\t0\n").is_none());
}

#[test]
fn last_value_wins_and_bad_values_are_zero() {
    let c = parse_fdinfo(
        b"drm-driver:\txe\ndrm-client-id:\t4\ndrm-client-id:\t+9\ndrm-total-gtt:\t12 KiB\ndrm-total-gtt:\tlots\ndrm-cycles-rcs:\t10\ndrm-cycles-rcs:\t20\ndrm-total-cycles-rcs:\tx\n",
    )
    .expect("xe client");
    assert_eq!(c.client_id, 9);
    assert_eq!(c.gtt_kb, 0);
    assert_eq!(counts(&c, "rcs"), Some((20, 0)));
}

#[test]
fn total_before_busy_creates_entry() {
    let c = parse_fdinfo(
        b"drm-total-cycles-ccs: 100\r\n  drm-cycles-ccs: 7  \r\ndrm-driver: xe\r\ndrm-client-id: 2\r\ndrm-cycles-nocolon 5\n",
    )
    .expect("xe client");
    assert_eq!(c.client_id, 2);
    assert_eq!(counts(&c, "ccs"), Some((7, 100)));
    assert_eq!(c.engine_cycles.len(), 1);
}

#[test]
fn gtt_takes_first_token() {
    let c = parse_fdinfo("drm-driver:\txe\ndrm-client-id:\t1\ndrm-total-gtt:\u{3000}42\u{a0}KiB\n".as_bytes())
        .expect("xe client");
    assert_eq!(c.gtt_kb, 42);
    let c = parse_fdinfo(b"drm-driver:\txe\ndrm-client-id:\t1\ndrm-total-gtt:18446744073709551616 KiB\n")
        .expect("xe client");
    assert_eq!(c.gtt_kb, 0);
}

fn snapshot(pid: u32, command: &str, client_id: u32, gtt_kb: u64, content: &str) -> ClientSnapshot {
    let mut counters = parse_fdinfo(content.as_bytes()).expect("xe client");
    counters.client_id = client_id;
    counters.gtt_kb = gtt_kb;
    ClientSnapshot { pid, command: command.to_string(), counters }
}

#[test]
fn whole_scan_keeps_each_client_once_with_most_gtt() {
    let found = vec![
        snapshot(10, "a", 1, 100, SAMPLE),
        snapshot(11, "b", 2, 50, SAMPLE),
        snapshot(12, "c", 1, 300, SAMPLE),
        snapshot(13, "d", 2, 50, SAMPLE),
        snapshot(14, "e", 3, 7, SAMPLE),
    ];
    let kept = merge_scan(found);
    let summary: Vec<(u32, u32, u64)> =
        kept.iter().map(|s| (s.pid, s.counters.client_id, s.counters.gtt_kb)).collect();
    assert_eq!(summary, vec![(12, 1, 300), (11, 2, 50), (14, 3, 7)]);
    assert!(merge_scan(Vec::new()).is_empty());
}

#[test]
fn merge_keeps_largest_gtt_per_client() {
    let mut list = Vec::new();
    merge_snapshot(&mut list, snapshot(10, "a", 1, 100, SAMPLE));
    merge_snapshot(&mut list, snapshot(11, "b", 2, 50, SAMPLE));
    merge_snapshot(&mut list, snapshot(12, "c", 1, 100, SAMPLE));
    assert_eq!(list.len(), 2);
    assert_eq!(list[0].pid, 10);
    merge_snapshot(&mut list, snapshot(13, "d", 1, 101, SAMPLE));
    assert_eq!(list.len(), 2);
    assert_eq!(list[0].pid, 13);
    assert_eq!(list[1].pid, 11);
}

fn cycles_text(rcs: (u64, u64), vcs: (u64, u64)) -> String {
    format!(
        "drm-driver:\txe\ndrm-client-id:\t1\ndrm-cycles-rcs:\t{}\ndrm-total-cycles-rcs:\t{}\ndrm-cycles-vcs:\t{}\ndrm-total-cycles-vcs:\t{}\n",
        rcs.0, rcs.1, vcs.0, vcs.1
    )
}

#[test]
fn collector_reports_deltas_for_clients_seen_twice() {
    let mut c = FdinfoCollector::new(2);
    // Tick 1 does not scan: nothing before the first scan.
    assert!(!c.needs_scan());
    assert!(c.cached().is_empty());
    // Tick 2 is a scan tick.
    assert!(c.needs_scan());
    c.update(vec![snapshot(100, "game", 5, 2048, &cycles_text((100, 1000), (50, 1000)))]);
    assert!(c.cached().is_empty());
    assert!(!c.needs_scan());
    // Tick 4 scans again.
    assert!(c.needs_scan());
    c.update(vec![
        snapshot(100, "game", 5, 4096, &cycles_text((400, 2000), (40, 1500))),
        snapshot(200, "new", 6, 1, &cycles_text((1, 1), (1, 1))),
    ]);
    let rows = c.cached();
    assert_eq!(rows.len(), 1);
    let r = &rows[0];
    assert_eq!((r.pid, r.command.as_str(), r.client_id, r.gtt_kb), (100, "game", 5, 4096));
    // rcs, ccs, bcs, vcs, vecs
    assert_eq!(r.engines, vec![(300, 1000), (0, 0), (0, 0), (0, 500), (0, 0)]);
    // Tick 5 keeps the cached rows; tick 6 scans again.
    assert!(!c.needs_scan());
    assert_eq!(c.cached().len(), 1);
    assert!(c.needs_scan());
}

#[test]
fn collector_scans_only_every_nth_tick() {
    let mut c = FdinfoCollector::new(0);
    assert!(c.needs_scan());
    assert!(c.needs_scan());
    let mut c = FdinfoCollector::new(3);
    assert!(!c.needs_scan());
    assert!(!c.needs_scan());
    assert!(c.needs_scan());
    // An empty scan does not make the next tick scan.
    c.update(Vec::new());
    assert!(!c.needs_scan());
    assert!(!c.needs_scan());
    assert!(c.needs_scan());
    assert_eq!(c.tick_count(), 6);
}

#[test]
fn vanished_clients_leave_the_baseline() {
    let mut c = FdinfoCollector::new(1);
    let text = cycles_text((100, 1000), (50, 1000));
    assert!(c.needs_scan());
    c.update(vec![snapshot(1, "a", 3, 4, &text), snapshot(2, "b", 4, 4, &text)]);
    assert!(c.needs_scan());
    c.update(vec![snapshot(2, "b", 4, 4, &text)]);
    assert_eq!(c.cached().len(), 1);
    assert_eq!(c.cached()[0].client_id, 4);
    assert!(c.needs_scan());
    // Client 3 was not in the previous scan, so it has no row yet.
    c.update(vec![snapshot(1, "a", 3, 4, &text), snapshot(2, "b", 4, 4, &text)]);
    let ids: Vec<u32> = c.cached().iter().map(|r| r.client_id).collect();
    assert_eq!(ids, vec![4]);
}

#[test]
fn later_snapshot_of_a_client_is_the_baseline() {
    let mut c = FdinfoCollector::new(1);
    assert!(c.needs_scan());
    c.update(vec![
        snapshot(1, "a", 3, 4, &cycles_text((100, 1000), (0, 0))),
        snapshot(1, "a", 3, 4, &cycles_text((200, 1000), (0, 0))),
    ]);
    assert!(c.needs_scan());
    c.update(vec![snapshot(1, "a", 3, 4, &cycles_text((250, 1100), (0, 0)))]);
    assert_eq!(c.cached()[0].engines[0], (50, 100));
}

#[test]
fn engine_names_in_report_order() {
    let names: Vec<&str> = (0..ENGINE_COUNT).map(fdinfo_engine_name).collect();
    assert_eq!(names, vec!["rcs", "ccs", "bcs", "vcs", "vecs"]);
}

#[test]
fn unchanged_client_shows_no_usage() {
    let mut c = FdinfoCollector::new(1);
    let text = cycles_text((100, 1000), (50, 1000));
    assert!(c.needs_scan());
    c.update(vec![snapshot(1, "idle", 3, 4, &text)]);
    assert!(c.needs_scan());
    c.update(vec![snapshot(1, "idle", 3, 4, &text)]);
    assert_eq!(c.cached()[0].engines, vec![(0, 0); ENGINE_COUNT]);
}

#[test]
fn counters_that_go_backwards_saturate() {
    let mut c = FdinfoCollector::new(1);
    assert!(c.needs_scan());
    c.update(vec![snapshot(1, "x", 3, 4, &cycles_text((100, 1000), (50, 1000)))]);
    assert!(c.needs_scan());
    c.update(vec![snapshot(1, "x", 3, 4, &cycles_text((90, 900), (60, 1100)))]);
    assert_eq!(c.cached()[0].engines, vec![(0, 0), (0, 0), (0, 0), (10, 100), (0, 0)]);
}

#[test]
fn repeated_engine_lines_make_one_entry() {
    let text = "drm-driver:\txe\ndrm-client-id:\t9\ndrm-cycles-rcs:\t5\ndrm-total-cycles-rcs:\t50\ndrm-cycles-rcs:\t7\ndrm-cycles-vcs:\t1\n";
    let c = parse_fdinfo(text.as_bytes()).expect("xe client");
    let names: Vec<&[u8]> = c.engine_cycles.iter().map(|e| e.engine.as_slice()).collect();
    assert_eq!(names, vec![&b"rcs"[..], &b"vcs"[..]]);
    assert_eq!(lookup_engine(&c.engine_cycles, b"rcs"), Some((7, 50)));
}
