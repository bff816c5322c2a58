use usage_dashboard::amount::parse_amount_nanos;
use usage_dashboard::clock::parse_rfc3339;
use usage_dashboard::json::LineFields;
use usage_dashboard::processor::{join_identity, DedupKeys, LineError, LogFile, ReadLine, UsageProcessor};
use usage_dashboard::aggregator::UsageAggregator;

fn line(ts: &str, msg_id: &str, req_id: &str, model: &str, input: u64, output: u64, extra: &str) -> String {
    format!(
        "{{\"timestamp\":\"{}\",\"requestId\":\"{}\",\"cwd\":\"/home/me/Github/widget-app\"{},\"message\":{{\"id\":\"{}\",\"model\":\"{}\",\"usage\":{{\"input_tokens\":{},\"output_tokens\":{}}}}}}}",
        ts, req_id, extra, msg_id, model, input, output
    )
}

fn session() -> Option<String> {
    Some("session-a".to_string())
}

#[test]
fn record_is_extracted_with_computed_cost() {
    let p = UsageProcessor::new();
    let mut local = DedupKeys::new();
    let mut global = DedupKeys::new();
    let l = line("2025-06-01T10:00:00Z", "m1", "r1", "sonnet-4-x", 1_000_000, 1_000_000, "");
    let e = p.process_line(&l, &session(), &mut local, &mut global).unwrap().unwrap();
    assert_eq!(e.cost, 18_000_000_000);
    assert_eq!(e.model, "sonnet-4-x");
    assert_eq!(e.input_tokens, 1_000_000);
    assert_eq!(e.output_tokens, 1_000_000);
    assert_eq!(e.cache_read_tokens, 0);
    assert_eq!(e.project_path.as_deref(), Some("/home/me/Github/widget-app"));
    assert_eq!(e.session_id.as_deref(), Some("session-a"));
    assert_eq!(e.request_id.as_deref(), Some("r1"));
    assert_eq!((e.timestamp.year, e.timestamp.month, e.timestamp.day), (2025, 6, 1));
    assert_eq!(e.timestamp.nanos, 0);
    assert_eq!(global.len(), 1);
}

#[test]
fn unknown_model_costs_nothing() {
    let p = UsageProcessor::new();
    let mut local = DedupKeys::new();
    let mut global = DedupKeys::new();
    let l = line("2025-06-01T10:00:00Z", "m1", "r1", "gpt-5-experimental", 500, 700, "");
    let e = p.process_line(&l, &session(), &mut local, &mut global).unwrap().unwrap();
    assert_eq!(e.cost, 0);
}

#[test]
fn cost_usd_is_taken_verbatim() {
    let p = UsageProcessor::new();
    let mut local = DedupKeys::new();
    let mut global = DedupKeys::new();
    let l = line("2025-06-01T10:00:00Z", "m1", "r1", "opus-4", 10, 10, ",\"costUSD\":0.0123");
    let e = p.process_line(&l, &session(), &mut local, &mut global).unwrap().unwrap();
    assert_eq!(e.cost, 12_300_000);
}

#[test]
fn zero_usage_line_gives_no_record() {
    let p = UsageProcessor::new();
    let mut local = DedupKeys::new();
    let mut global = DedupKeys::new();
    let l = line("2025-06-01T10:00:00Z", "m1", "r1", "opus-4", 0, 0, "");
    assert!(matches!(p.process_line(&l, &session(), &mut local, &mut global), Ok(None)));
}

#[test]
fn missing_or_null_usage_is_skipped_silently() {
    let p = UsageProcessor::new();
    let mut local = DedupKeys::new();
    let mut global = DedupKeys::new();
    let a = "{\"timestamp\":\"2025-06-01T10:00:00Z\",\"message\":{\"id\":\"m\",\"usage\":null}}";
    let b = "{\"timestamp\":\"2025-06-01T10:00:00Z\",\"message\":{\"role\":\"user\"}}";
    assert!(matches!(p.process_line(a, &session(), &mut local, &mut global), Ok(None)));
    assert!(matches!(p.process_line(b, &session(), &mut local, &mut global), Ok(None)));
}

#[test]
fn each_line_error_variant() {
    let p = UsageProcessor::new();
    let mut local = DedupKeys::new();
    let mut global = DedupKeys::new();
    let s = session();
    assert_eq!(p.process_line("not json", &s, &mut local, &mut global).err(), Some(LineError::InvalidJson));
    assert_eq!(
        p.process_line("{\"message\":{}}", &s, &mut local, &mut global).err(),
        Some(LineError::MissingTimestamp)
    );
    assert_eq!(
        p.process_line("{\"timestamp\":\"yesterday\",\"message\":{}}", &s, &mut local, &mut global).err(),
        Some(LineError::InvalidTimestamp)
    );
    assert_eq!(
        p.process_line("{\"timestamp\":\"2025-06-01T10:00:00Z\"}", &s, &mut local, &mut global).err(),
        Some(LineError::MissingMessage)
    );
}

#[test]
fn duplicate_within_a_file_is_dropped() {
    let p = UsageProcessor::new();
    let mut global = DedupKeys::new();
    let l = line("2025-06-01T10:00:00Z", "m1", "r1", "opus-4", 5, 5, "");
    let content = format!("{}\n{}\n", l, l);
    let scan = p.process_file(&content, &session(), &mut global);
    assert_eq!(scan.entries.len(), 1);
    assert!(scan.warnings.is_empty());
}

#[test]
fn same_file_twice_adds_nothing() {
    let p = UsageProcessor::new();
    let a = line("2025-06-01T10:00:00Z", "m1", "r1", "opus-4", 5, 5, "");
    let b = line("2025-06-02T10:00:00Z", "m2", "r2", "opus-4", 7, 7, "");
    let content = format!("{}\n\n{}\n", a, b);
    let once = p.process_all_files(&vec![LogFile { session_id: session(), content: content.clone() }]);
    let twice = p.process_all_files(&vec![
        LogFile { session_id: session(), content: content.clone() },
        LogFile { session_id: session(), content },
    ]);
    assert_eq!(once.entries.len(), 2);
    assert_eq!(twice.entries.len(), once.entries.len());
    assert_eq!(twice.file_count, 2);
}

#[test]
fn same_identity_in_two_files_is_kept_once() {
    let p = UsageProcessor::new();
    let a = line("2025-06-01T10:00:00Z", "m1", "r1", "opus-4", 5, 5, "");
    let b = line("2025-06-01T11:00:00Z", "m1", "r1", "opus-4", 9, 9, "");
    let c = line("2025-06-01T12:00:00Z", "m2", "r1", "opus-4", 9, 9, "");
    let r = p.process_all_files(&vec![
        LogFile { session_id: Some("s1".to_string()), content: a },
        LogFile { session_id: Some("s2".to_string()), content: format!("{}\n{}", b, c) },
    ]);
    assert_eq!(r.entries.len(), 2);
}

#[test]
fn records_without_identity_are_never_deduplicated() {
    let p = UsageProcessor::new();
    let l = "{\"timestamp\":\"2025-06-01T10:00:00Z\",\"message\":{\"model\":\"x\",\"usage\":{\"input_tokens\":3}}}";
    let mut global = DedupKeys::new();
    let content = format!("{}\n{}", l, l);
    let scan = p.process_file(&content, &None, &mut global);
    assert_eq!(scan.entries.len(), 2);
    assert_eq!(scan.entries[0].model, "x");
    assert_eq!(global.len(), 0);
}

#[test]
fn load_is_sorted_newest_first_with_warnings() {
    let p = UsageProcessor::new();
    let a = line("2025-06-01T10:00:00Z", "m1", "r1", "opus-4", 5, 5, "");
    let b = line("2025-06-03T10:00:00+02:00", "m2", "r2", "opus-4", 5, 5, "");
    let c = line("2025-06-02T10:00:00Z", "m3", "r3", "opus-4", 5, 5, "");
    let r = p.process_all_files(&vec![
        LogFile { session_id: session(), content: format!("{}\nbroken\n{}", a, b) },
        LogFile { session_id: session(), content: c },
    ]);
    assert_eq!(r.entries.len(), 3);
    let days: Vec<u32> = r.entries.iter().map(|e| e.timestamp.day).collect();
    assert_eq!(days, vec![3, 2, 1]);
    assert_eq!(r.entries[0].timestamp.secs, 1748937600);
    assert_eq!(r.warnings.len(), 1);
    assert_eq!(r.warnings[0].file_index, 0);
    assert_eq!(r.warnings[0].line_number, 2);
    assert_eq!(r.warnings[0].error, LineError::InvalidJson);
}

#[test]
fn amounts_read_as_billionths() {
    assert_eq!(parse_amount_nanos("0.0123"), Some(12_300_000));
    assert_eq!(parse_amount_nanos("2"), Some(2_000_000_000));
    assert_eq!(parse_amount_nanos("1.5e-5"), Some(15_000));
    assert_eq!(parse_amount_nanos("1E2"), Some(100_000_000_000));
    assert_eq!(parse_amount_nanos("1e-12"), Some(0));
    assert_eq!(parse_amount_nanos("0.0000000019"), Some(1));
    assert_eq!(parse_amount_nanos("-1"), None);
    assert_eq!(parse_amount_nanos("1."), None);
    assert_eq!(parse_amount_nanos("1e99999"), None);
    assert_eq!(parse_amount_nanos("1e30"), None);
}

fn fields(msg_id: &str, tokens: u64, cost: Option<&str>) -> LineFields {
    LineFields {
        timestamp: Some("2025-06-01T10:00:00.5Z".to_string()),
        has_message: true,
        has_usage: true,
        message_id: Some(msg_id.to_string()),
        request_id: Some("req".to_string()),
        input_tokens: Some(tokens),
        output_tokens: None,
        cache_read_tokens: Some(1 << 32),
        cache_creation_tokens: None,
        model: None,
        cwd: None,
        cost_usd: cost.map(|c| c.to_string()),
    }
}

#[test]
fn scan_of_read_lines() {
    let p = UsageProcessor::new();
    let when = parse_rfc3339("2025-06-01T10:00:00.5Z");
    assert_eq!(when.map(|t| t.nanos), Some(500_000_000));
    let lines = vec![
        ReadLine { number: 1, fields: Some(fields("m1", 4, Some("1e-9"))), when },
        ReadLine { number: 3, fields: None, when: None },
        ReadLine { number: 4, fields: Some(fields("m1", 4, None)), when },
        ReadLine { number: 5, fields: Some(fields("m2", 0, None)), when },
        ReadLine { number: 6, fields: Some(fields("m3", 2, Some("-1"))), when },
    ];
    let mut global = DedupKeys::new();
    let scan = p.scan_lines(&lines, &None, &mut global);
    assert_eq!(scan.entries.len(), 2);
    assert_eq!(scan.entries[0].model, "unknown");
    assert_eq!(scan.entries[0].cost, 1);
    // 2^32 cache-read tokens keep their low 32 bits
    assert_eq!(scan.entries[0].cache_read_tokens, 0);
    assert_eq!(scan.entries[1].input_tokens, 2);
    assert_eq!(scan.entries[1].cost, 0);
    assert_eq!(scan.warnings.len(), 1);
    assert_eq!(scan.warnings[0].line_number, 3);
    assert_eq!(scan.warnings[0].error, LineError::InvalidJson);
    // the zero-token line leaves the identity sets alone
    assert_eq!(global.len(), 2);
    assert!(global.contains(&join_identity("m1", "req")));
    assert!(!global.contains(&join_identity("m2", "req")));
}

#[test]
fn identity_joins_keep_pairs_apart() {
    assert_eq!(join_identity("a:b", "c"), "3:a:bc");
    assert_ne!(join_identity("a:b", "c"), join_identity("a", "b:c"));
    let p = UsageProcessor::new();
    let a = line("2025-06-01T10:00:00Z", "a:b", "c", "opus-4", 5, 5, "");
    let b = line("2025-06-01T11:00:00Z", "a", "b:c", "opus-4", 5, 5, "");
    let r = p.process_all_files(&vec![
        LogFile { session_id: session(), content: a },
        LogFile { session_id: session(), content: b },
    ]);
    assert_eq!(r.entries.len(), 2);
}

#[test]
fn zero_token_line_leaves_identity_sets_alone() {
    let p = UsageProcessor::new();
    let mut local = DedupKeys::new();
    let mut global = DedupKeys::new();
    let zero = line("2025-06-01T10:00:00Z", "m1", "r1", "opus-4", 0, 0, "");
    assert!(matches!(p.process_line(&zero, &session(), &mut local, &mut global), Ok(None)));
    assert_eq!(local.len(), 0);
    assert_eq!(global.len(), 0);
    let real = line("2025-06-01T10:00:00Z", "m1", "r1", "opus-4", 3, 0, "");
    assert!(matches!(p.process_line(&real, &session(), &mut local, &mut global), Ok(Some(_))));
}

#[test]
fn five_digit_utc_year_is_accepted() {
    let p = UsageProcessor::new();
    let mut local = DedupKeys::new();
    let mut global = DedupKeys::new();
    let l = line("9999-12-31T23:30:00-01:00", "m1", "r1", "opus-4", 3, 0, "");
    let e = p.process_line(&l, &session(), &mut local, &mut global).unwrap().unwrap();
    assert_eq!((e.timestamp.year, e.timestamp.month, e.timestamp.day), (10000, 1, 1));
    let days = UsageAggregator::new().calculate_daily_usage(&vec![e]);
    assert_eq!(days[0].date, "+10000-01-01");
}
