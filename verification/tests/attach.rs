use croxy::attach::{load_history, parse_log_entry, tail_advance, tail_line, tail_log, TailAction};
use croxy::metrics::{log_line, MetricsStore, RequestRecord, RoutingMethod};
use croxy::metrics_log::{replay_order, LogFile};

const NOW_WALL: i64 = 1_700_000_000_000;
const NOW_MONO: u64 = 50_000_000;
const HOUR: u64 = 3_600_000;

fn recent_timestamp() -> String {
    "2023-11-14T22:13:19Z".to_string()
}

fn old_timestamp() -> String {
    "2023-11-14T20:13:20+00:00".to_string()
}

fn make_entry(ts: &str, model: &str, error: Option<&str>) -> String {
    let error_json = match error {
        Some(e) => format!("\"{e}\""),
        None => "null".to_string(),
    };
    format!(
        r#"{{"timestamp":"{ts}","model":"{model}","provider":"anthropic","status":200,"duration_ms":100,"input_tokens":50,"output_tokens":75,"error":{error_json}}}"#
    )
}

#[test]
fn parse_valid_entry() {
    let ts = recent_timestamp();
    let line = make_entry(&ts, "big-opus-4-6", None);
    let record = parse_log_entry(&line, NOW_WALL, NOW_MONO).expect("should parse");
    assert_eq!(record.model, "big-opus-4-6");
    assert_eq!(record.provider, "anthropic");
    assert_eq!(record.status, 200);
    assert_eq!(record.duration, 100);
    assert_eq!(record.input_tokens, 50);
    assert_eq!(record.output_tokens, 75);
    assert!(record.error_body.is_none());
    assert_eq!(record.id, 0);
    assert_eq!(record.wall_ts, NOW_WALL - 1_000);
    assert_eq!(record.mono_ts, NOW_MONO - 1_000);
    assert_eq!(record.routing_method, RoutingMethod::Default);
}

#[test]
fn parse_entry_with_error() {
    let ts = recent_timestamp();
    let line = make_entry(&ts, "opus", Some("rate limited"));
    let record = parse_log_entry(&line, NOW_WALL, NOW_MONO).expect("should parse");
    assert_eq!(record.error_body.as_deref(), Some("rate limited"));
}

#[test]
fn parse_missing_fields() {
    let line = r#"{"timestamp":"2025-01-01T00:00:00Z","model":"opus"}"#;
    assert!(parse_log_entry(line, NOW_WALL, NOW_MONO).is_none());
}

#[test]
fn parse_malformed_json() {
    assert!(parse_log_entry("not json", NOW_WALL, NOW_MONO).is_none());
    assert!(parse_log_entry("", NOW_WALL, NOW_MONO).is_none());
    assert!(parse_log_entry("{", NOW_WALL, NOW_MONO).is_none());
    assert!(parse_log_entry("{}", NOW_WALL, NOW_MONO).is_none());
}

#[test]
fn parse_refuses_fields_of_the_wrong_form() {
    let good = make_entry(&recent_timestamp(), "m", None);
    assert!(parse_log_entry(&good, NOW_WALL, NOW_MONO).is_some());
    for (from, to) in [
        ("\"status\":200", "\"status\":65536"),
        ("\"status\":200", "\"status\":\"200\""),
        ("\"status\":200", "\"status\":-1"),
        ("\"duration_ms\":100", "\"duration_ms\":1.5"),
        ("\"error\":null", "\"error\":7"),
        ("\"model\":\"m\"", "\"model\":null"),
        ("2023-11-14T22:13:19Z", "yesterday"),
    ] {
        let bad = good.replace(from, to);
        assert_ne!(bad, good);
        assert!(parse_log_entry(&bad, NOW_WALL, NOW_MONO).is_none(), "{bad}");
    }
    let without_error = good.replace(",\"error\":null", "");
    assert!(parse_log_entry(&without_error, NOW_WALL, NOW_MONO).unwrap().error_body.is_none());
}

#[test]
fn parse_refuses_instants_out_of_reach() {
    let line = make_entry(&recent_timestamp(), "m", None);
    assert!(parse_log_entry(&line, NOW_WALL - 1_001, NOW_MONO).is_none());
    assert!(parse_log_entry(&line, NOW_WALL, 999).is_none());
    assert_eq!(parse_log_entry(&line, NOW_WALL, 1_000).unwrap().mono_ts, 0);
    assert_eq!(parse_log_entry(&line, NOW_WALL - 1_000, 7).unwrap().mono_ts, 7);
}

#[test]
fn load_history_reads_rotated_files() {
    let ts = recent_timestamp();
    let order = replay_order(5);
    assert_eq!(
        order,
        vec![
            LogFile::Rotated(5),
            LogFile::Rotated(4),
            LogFile::Rotated(3),
            LogFile::Rotated(2),
            LogFile::Rotated(1),
            LogFile::Active
        ]
    );
    let mut lines = Vec::new();
    for file in order {
        match file {
            LogFile::Rotated(2) => lines.push(make_entry(&ts, "oldest", None)),
            LogFile::Rotated(1) => lines.push(make_entry(&ts, "middle", None)),
            LogFile::Active => lines.push(make_entry(&ts, "newest", None)),
            LogFile::Rotated(_) => {}
        }
    }
    let mut store = MetricsStore::new(HOUR);
    load_history(&mut store, &lines, NOW_WALL, NOW_MONO, HOUR);

    let snap = store.snapshot(NOW_MONO);
    assert_eq!(snap.len(), 3);
    assert_eq!(snap[0].model, "oldest");
    assert_eq!(snap[1].model, "middle");
    assert_eq!(snap[2].model, "newest");
    assert_eq!(snap.iter().map(|r| r.id).collect::<Vec<u64>>(), vec![1, 2, 3]);
}

#[test]
fn load_history_skips_old_entries() {
    let lines = vec![
        make_entry(&old_timestamp(), "old-model", None),
        make_entry(&recent_timestamp(), "new-model", None),
    ];
    let mut store = MetricsStore::new(HOUR);
    let added = load_history(&mut store, &lines, NOW_WALL, NOW_MONO, HOUR);
    assert_eq!(added, 1);

    let snap = store.snapshot(NOW_MONO);
    assert_eq!(snap.len(), 1);
    assert_eq!(snap[0].model, "new-model");
}

#[test]
fn load_history_keeps_entries_at_the_cutoff() {
    let lines = vec![make_entry("2023-11-14T21:13:20Z", "edge", None)];
    let mut store = MetricsStore::new(2 * HOUR);
    assert_eq!(load_history(&mut store, &lines, NOW_WALL, NOW_MONO, HOUR), 1);
    assert_eq!(load_history(&mut store, &lines, NOW_WALL, NOW_MONO, HOUR - 1), 0);
}

#[test]
fn load_history_skips_malformed_lines() {
    let ts = recent_timestamp();
    let lines = vec![
        "garbage".to_string(),
        make_entry(&ts, "good1", None),
        "{}".to_string(),
        String::new(),
        make_entry(&ts, "good2", None),
    ];
    let mut store = MetricsStore::new(HOUR);
    load_history(&mut store, &lines, NOW_WALL, NOW_MONO, HOUR);

    let snap = store.snapshot(NOW_MONO);
    assert_eq!(snap.len(), 2);
}

#[test]
fn load_history_handles_missing_files() {
    let mut store = MetricsStore::new(HOUR);
    let added = load_history(&mut store, &[], NOW_WALL, NOW_MONO, HOUR);
    assert_eq!(added, 0);
    assert_eq!(store.snapshot(NOW_MONO).len(), 0);
}

fn written(model: &str, wall_ts: i64) -> RequestRecord {
    RequestRecord {
        id: 0,
        mono_ts: 0,
        wall_ts,
        model: model.to_string(),
        provider: "p \"1\"".to_string(),
        routing_method: RoutingMethod::Pattern,
        status: 502,
        duration: 12,
        input_tokens: 3,
        output_tokens: 4,
        error_body: Some("HTTP 502 (0 bytes)".to_string()),
    }
}

#[test]
fn replay_gives_back_what_was_written_in_order() {
    let lines: Vec<String> = vec![
        log_line(&written("first", NOW_WALL - 3_000)).unwrap(),
        log_line(&written("second", NOW_WALL - 2_000)).unwrap(),
        log_line(&written("third", NOW_WALL - 1_000)).unwrap(),
    ];
    let mut store = MetricsStore::new(HOUR);
    assert_eq!(load_history(&mut store, &lines, NOW_WALL, NOW_MONO, HOUR), 3);
    let mut snap = store.snapshot(NOW_MONO);
    snap.sort_by_key(|r| r.wall_ts);
    assert_eq!(
        snap.iter().map(|r| r.model.as_str()).collect::<Vec<&str>>(),
        vec!["first", "second", "third"]
    );
    assert_eq!(snap[0].provider, "p \"1\"");
    assert_eq!(snap[0].status, 502);
    assert_eq!(snap[0].duration, 12);
    assert_eq!(snap[0].input_tokens, 3);
    assert_eq!(snap[0].output_tokens, 4);
    assert_eq!(snap[0].error_body.as_deref(), Some("HTTP 502 (0 bytes)"));
    assert_eq!(snap[0].wall_ts, NOW_WALL - 3_000);
    assert_eq!(snap[0].mono_ts, NOW_MONO - 3_000);
}

#[test]
fn tail_follows_growth_and_rotation() {
    assert_eq!(tail_log(10, None), (10, TailAction::Wait));
    assert_eq!(tail_log(10, Some(10)), (10, TailAction::Wait));
    assert_eq!(tail_log(10, Some(25)), (10, TailAction::Read { from: 10 }));
    assert_eq!(tail_log(10, Some(4)), (0, TailAction::Read { from: 0 }));
    assert_eq!(tail_log(10, Some(0)), (0, TailAction::Wait));
    assert_eq!(tail_advance(10, 15), 25);
    assert_eq!(tail_advance(u64::MAX - 1, 15), u64::MAX);
}

#[test]
fn tail_line_takes_entries_only() {
    let mut store = MetricsStore::new(HOUR);
    assert!(!tail_line(&mut store, "", NOW_WALL, NOW_MONO));
    assert!(!tail_line(&mut store, "garbage", NOW_WALL, NOW_MONO));
    let line = format!("{}\n", make_entry(&old_timestamp(), "seen", None));
    assert!(tail_line(&mut store, &line, NOW_WALL, NOW_MONO));
    let snap = store.snapshot(0);
    assert_eq!(snap.len(), 1);
    assert_eq!(snap[0].model, "seen");
    assert_eq!(snap[0].id, 1);
}
