use croxy::metrics::{log_line, MetricsStore, RequestRecord, RoutingMethod};

const NOW: u64 = 10_000_000;
const WALL: i64 = 1_700_000_000_000;

fn sample_record() -> RequestRecord {
    RequestRecord {
        id: 0,
        mono_ts: NOW,
        wall_ts: WALL,
        model: "big-opus-4-6".to_string(),
        provider: "anthropic".to_string(),
        routing_method: RoutingMethod::Default,
        status: 200,
        duration: 500,
        input_tokens: 100,
        output_tokens: 200,
        error_body: None,
    }
}

#[test]
fn records_and_retrieves() {
    let mut store = MetricsStore::new(60_000);
    store.record(sample_record());
    let snap = store.snapshot(NOW);
    assert_eq!(snap.len(), 1);
    assert_eq!(snap[0].model, "big-opus-4-6");
}

#[test]
fn snapshot_excludes_expired() {
    let mut store = MetricsStore::new(50);
    let mut old = sample_record();
    old.mono_ts = NOW - 100;
    store.record(old);
    store.record(sample_record());
    let snap = store.snapshot(NOW);
    assert_eq!(snap.len(), 1);
}

#[test]
fn evict_removes_old_records() {
    let mut store = MetricsStore::new(50);
    let mut old = sample_record();
    old.mono_ts = NOW - 100;
    store.record(old);
    store.record(sample_record());
    assert_eq!(store.len(), 2);
    store.evict_expired(NOW);
    assert_eq!(store.len(), 1);
    assert_eq!(store.upcoming_id(), 3);
}

#[test]
fn snapshot_returns_owned_data() {
    let mut store = MetricsStore::new(60_000);
    store.record(sample_record());
    let snap = store.snapshot(NOW);
    drop(snap);
    assert_eq!(store.snapshot(NOW).len(), 1);
}

#[test]
fn group_by_model() {
    let mut store = MetricsStore::new(60_000);
    for _ in 0..3 {
        store.record(sample_record());
    }
    let mut sonnet = sample_record();
    sonnet.model = "big-sonnet-4-5-20250929".to_string();
    sonnet.provider = "ollama".to_string();
    store.record(sonnet);
    store.record(sample_record());

    let snap = store.snapshot(NOW);
    let groups = MetricsStore::group_by(&snap, |r| r.model.clone());
    assert_eq!(groups.len(), 2);
    assert_eq!(groups[0].key, "big-opus-4-6");
    assert_eq!(groups[0].records.iter().map(|r| r.id).collect::<Vec<u64>>(), vec![1, 2, 3, 5]);
    assert_eq!(groups[1].key, "big-sonnet-4-5-20250929");
    assert_eq!(groups[1].records.len(), 1);
    let by_provider = MetricsStore::group_by(&snap, |r| r.provider.clone());
    assert_eq!(by_provider.len(), 2);
    assert_eq!(by_provider[1].key, "ollama");
    assert_eq!(by_provider[1].records[0].id, 4);
    assert!(MetricsStore::group_by(&[], |r| r.model.clone()).is_empty());
    let by_status = MetricsStore::group_by(&snap, |r| (r.status / 100).to_string());
    assert_eq!(by_status.len(), 1);
    assert_eq!(by_status[0].key, "2");
    assert_eq!(by_status[0].records.len(), 5);
    let keys = vec!["b".to_string(), "a".to_string(), "b".to_string(), "c".to_string(), "a".to_string()];
    let by_keys = MetricsStore::group_by_keys(&snap, &keys);
    assert_eq!(by_keys.iter().map(|g| g.key.as_str()).collect::<Vec<&str>>(), vec!["b", "a", "c"]);
    assert_eq!(by_keys[0].records.iter().map(|r| r.id).collect::<Vec<u64>>(), vec![1, 3]);
    assert_eq!(by_keys[1].records.iter().map(|r| r.id).collect::<Vec<u64>>(), vec![2, 5]);
    assert_eq!(by_keys[2].records.iter().map(|r| r.id).collect::<Vec<u64>>(), vec![4]);
}

#[test]
fn status_counts_all_codes() {
    let mut store = MetricsStore::new(60_000);
    for status in [200, 200, 429, 429, 429, 500] {
        let mut r = sample_record();
        r.status = status;
        store.record(r);
    }
    let snap = store.snapshot(NOW);
    let counts = MetricsStore::status_counts(&snap);
    assert_eq!(counts.len(), 3);
    assert_eq!(counts[&200], 2);
    assert_eq!(counts[&429], 3);
    assert_eq!(counts[&500], 1);
}

#[test]
fn tokens_per_minute_buckets() {
    let mut store = MetricsStore::new(300_000);
    for _ in 0..3 {
        let mut r = sample_record();
        r.input_tokens = 100;
        r.output_tokens = 50;
        store.record(r);
    }
    let snap = store.snapshot(NOW);
    let buckets = MetricsStore::tokens_per_minute(&snap, NOW, 5);
    assert_eq!(buckets.len(), 5);
    assert_eq!(*buckets.last().unwrap(), 450);
}

#[test]
fn requests_per_minute_buckets() {
    let mut store = MetricsStore::new(300_000);
    for _ in 0..5 {
        store.record(sample_record());
    }
    let snap = store.snapshot(NOW);
    let buckets = MetricsStore::requests_per_minute(&snap, NOW, 5);
    assert_eq!(buckets.len(), 5);
    assert_eq!(*buckets.last().unwrap(), 5);
}

#[test]
fn buckets_place_older_records_earlier() {
    let mut a = sample_record();
    a.mono_ts = NOW - 59_999;
    let mut b = sample_record();
    b.mono_ts = NOW - 60_000;
    let mut c = sample_record();
    c.mono_ts = NOW - 4 * 60_000;
    let mut d = sample_record();
    d.mono_ts = NOW - 5 * 60_000;
    let mut e = sample_record();
    e.mono_ts = NOW + 1;
    let records = vec![a, b, c, d, e];
    assert_eq!(MetricsStore::requests_per_minute(&records, NOW, 5), vec![1, 0, 0, 1, 1]);
    assert_eq!(MetricsStore::tokens_per_minute(&records, NOW, 5), vec![300, 0, 0, 300, 300]);
    assert_eq!(MetricsStore::requests_per_minute(&records, NOW, 0), Vec::<u64>::new());
}

#[test]
fn token_buckets_stop_at_the_largest_value() {
    let mut a = sample_record();
    a.input_tokens = u64::MAX;
    a.output_tokens = 1;
    let records = vec![a, sample_record()];
    assert_eq!(MetricsStore::tokens_per_minute(&records, NOW, 1), vec![u64::MAX]);
}

#[test]
fn record_pending_returns_unique_ids() {
    let mut store = MetricsStore::new(60_000);
    let id0 = store.record_pending(sample_record());
    let id1 = store.record_pending(sample_record());
    assert_ne!(id0, id1);
    assert!(id0 > 0);
    assert!(id1 > 0);
}

#[test]
fn ids_grow_with_every_insertion() {
    let mut store = MetricsStore::new(60_000);
    let id0 = store.record_pending(sample_record());
    store.record(sample_record());
    let id2 = store.record_pending(sample_record());
    assert_eq!(id0, 1);
    assert_eq!(id2, 3);
    let snap = store.snapshot(NOW);
    assert_eq!(snap.iter().map(|r| r.id).collect::<Vec<u64>>(), vec![1, 2, 3]);
}

#[test]
fn finalize_stream_updates_record_by_id() {
    let mut store = MetricsStore::new(60_000);
    let mut rec = sample_record();
    rec.output_tokens = 0;
    rec.duration = 0;
    let id = store.record_pending(rec);

    store.finalize_stream(id, 500, 3_000);

    let snap = store.snapshot(NOW);
    let record = snap.iter().find(|r| r.id == id).expect("record not found");
    assert_eq!(record.output_tokens, 500);
    assert_eq!(record.duration, 3_000);
}

#[test]
fn finalize_stream_ignores_unknown_id() {
    let mut store = MetricsStore::new(60_000);
    store.record(sample_record());
    assert_eq!(store.finalize_stream(999_999, 100, 1_000), None);
    assert_eq!(store.snapshot(NOW).len(), 1);
    assert_eq!(store.snapshot(NOW)[0].output_tokens, 200);
}

#[test]
fn finalize_stable_after_eviction() {
    let mut store = MetricsStore::new(50);
    let mut old = sample_record();
    old.mono_ts = NOW - 100;
    store.record(old);

    let mut rec = sample_record();
    rec.output_tokens = 0;
    let id = store.record_pending(rec);

    store.evict_expired(NOW);

    store.finalize_stream(id, 999, 5_000);
    let snap = store.snapshot(NOW);
    assert_eq!(snap.len(), 1);
    assert_eq!(snap[0].output_tokens, 999);
    assert_eq!(snap[0].duration, 5_000);
}

#[test]
fn window_edge_is_not_live() {
    let mut store = MetricsStore::new(50);
    let mut edge = sample_record();
    edge.mono_ts = NOW - 50;
    store.record(edge);
    let mut inside = sample_record();
    inside.mono_ts = NOW - 49;
    store.record(inside);
    let mut ahead = sample_record();
    ahead.mono_ts = NOW + 5;
    store.record(ahead);
    let snap = store.snapshot(NOW);
    assert_eq!(snap.iter().map(|r| r.id).collect::<Vec<u64>>(), vec![2, 3]);
    assert_eq!(store.window_minutes(), 0);
    assert_eq!(MetricsStore::new(3_600_000).window_minutes(), 60);
}

#[test]
fn record_writes_to_logger() {
    let mut store = MetricsStore::with_logger(60_000);
    let line = store.record(sample_record()).expect("a line for the log");
    let entry: serde_json::Value = serde_json::from_str(line.trim()).unwrap();
    assert_eq!(entry["model"], "big-opus-4-6");
    assert_eq!(entry["status"], 200);
    assert_eq!(entry["provider"], "anthropic");
}

#[test]
fn record_without_logger_gives_no_line() {
    let mut store = MetricsStore::new(60_000);
    assert!(!store.is_logging());
    assert_eq!(store.record(sample_record()), None);
}

#[test]
fn finalize_stream_writes_to_logger() {
    let mut store = MetricsStore::with_logger(60_000);
    assert!(store.is_logging());
    let mut rec = sample_record();
    rec.output_tokens = 0;
    rec.duration = 0;
    let id = store.record_pending(rec);

    let line = store.finalize_stream(id, 500, 3_000).expect("a line for the log");
    let entry: serde_json::Value = serde_json::from_str(line.trim()).unwrap();
    assert_eq!(entry["output_tokens"], 500);
    assert_eq!(entry["duration_ms"], 3000);
}

#[test]
fn log_line_has_the_eight_fields() {
    let mut rec = sample_record();
    rec.model = "a \"quoted\" name".to_string();
    rec.error_body = Some("HTTP 500 (12 bytes)".to_string());
    rec.status = 500;
    let line = log_line(&rec).unwrap();
    assert_eq!(
        line,
        "{\"timestamp\":\"2023-11-14T22:13:20+00:00\",\"model\":\"a \\\"quoted\\\" name\",\"provider\":\"anthropic\",\"status\":500,\"duration_ms\":500,\"input_tokens\":100,\"output_tokens\":200,\"error\":\"HTTP 500 (12 bytes)\"}"
    );
    let entry: serde_json::Value = serde_json::from_str(&line).unwrap();
    let object = entry.as_object().unwrap();
    assert_eq!(object.len(), 8);
    for key in [
        "timestamp",
        "model",
        "provider",
        "status",
        "duration_ms",
        "input_tokens",
        "output_tokens",
        "error",
    ] {
        assert!(object.contains_key(key), "missing {key}");
    }
    assert!(log_line(&sample_record()).unwrap().ends_with(",\"error\":null}"));
}

#[test]
fn log_line_needs_a_timestamp_the_calendar_holds() {
    let mut rec = sample_record();
    rec.wall_ts = i64::MAX;
    assert_eq!(log_line(&rec), None);
}

#[test]
fn percentile_duration() {
    let mut store = MetricsStore::new(60_000);
    for ms in [100, 200, 300, 400, 500, 600, 700, 800, 900, 1000] {
        let mut r = sample_record();
        r.duration = ms;
        store.record(r);
    }
    let snap = store.snapshot(NOW);
    let durations: Vec<u64> = snap.iter().map(|r| r.duration).collect();
    let p50 = MetricsStore::duration_percentile(&durations, 50);
    let p95 = MetricsStore::duration_percentile(&durations, 95);
    assert!(p50 >= 500 && p50 <= 600);
    assert!(p95 >= 900 && p95 <= 1000);
}

#[test]
fn percentile_picks_the_rounded_index() {
    let durations = vec![900, 100, 500, 300, 700];
    assert_eq!(MetricsStore::duration_percentile(&durations, 0), 100);
    assert_eq!(MetricsStore::duration_percentile(&durations, 50), 500);
    assert_eq!(MetricsStore::duration_percentile(&durations, 62), 500);
    assert_eq!(MetricsStore::duration_percentile(&durations, 63), 700);
    assert_eq!(MetricsStore::duration_percentile(&durations, 100), 900);
    assert_eq!(MetricsStore::duration_percentile(&durations, 255), 900);
}

#[test]
fn percentile_empty_returns_zero() {
    let durations: Vec<u64> = vec![];
    assert_eq!(MetricsStore::duration_percentile(&durations, 50), 0);
}

#[test]
fn percentile_single_value() {
    let durations = vec![42];
    assert_eq!(MetricsStore::duration_percentile(&durations, 50), 42);
    assert_eq!(MetricsStore::duration_percentile(&durations, 99), 42);
}

#[test]
fn finalize_after_the_record_was_evicted_changes_nothing() {
    let mut store = MetricsStore::with_logger(50);
    let mut old = sample_record();
    old.mono_ts = NOW - 100;
    let id = store.record_pending(old);
    let kept = store.record_pending(sample_record());
    store.evict_expired(NOW);
    assert_eq!(store.len(), 1);
    assert_eq!(store.finalize_stream(id, 1, 2), None);
    let snap = store.snapshot(NOW);
    assert_eq!(snap.len(), 1);
    assert_eq!(snap[0].id, kept);
    assert_eq!(snap[0].output_tokens, 200);
    assert_eq!(snap[0].duration, 500);
    let next = store.record_pending(sample_record());
    assert_eq!(next, 3);
}
