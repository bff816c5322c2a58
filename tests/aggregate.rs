use usage_dashboard::aggregator::UsageAggregator;
use usage_dashboard::models::{TimeRange, Timestamp, UsageEntry, UsageStats};

fn ts(secs: i64, year: i32, month: u32, day: u32) -> Timestamp {
    Timestamp { secs, nanos: 0, year, month, day }
}

fn entry(t: Timestamp, model: &str, project: Option<&str>, session: Option<&str>, input: u32, output: u32, cost: u64) -> UsageEntry {
    UsageEntry {
        timestamp: t,
        model: model.to_string(),
        project_path: project.map(|p| p.to_string()),
        session_id: session.map(|s| s.to_string()),
        request_id: None,
        input_tokens: input,
        output_tokens: output,
        cache_read_tokens: 1,
        cache_creation_tokens: 2,
        cost,
    }
}

// 2025-06-01T00:00:00Z and the two days after it
const DAY1: i64 = 1748736000;
const DAY2: i64 = DAY1 + 86400;
const DAY3: i64 = DAY2 + 86400;

fn sample() -> Vec<UsageEntry> {
    vec![
        entry(ts(DAY3 + 100, 2025, 6, 3), "opus-4", Some("/home/me/Github/widget-app/src"), Some("s1"), 10, 20, 500),
        entry(ts(DAY1 + 50, 2025, 6, 1), "sonnet-4", Some("/home/me/Github/widget-app/src"), Some("s2"), 1, 2, 100),
        entry(ts(DAY2 + 10, 2025, 6, 2), "opus-4", None, Some("s1"), 3, 4, 300),
        entry(ts(DAY1 + 70, 2025, 6, 1), "gpt-x", Some("/tmp/scripts"), None, 5, 6, 0),
    ]
}

#[test]
fn global_totals_and_sessions() {
    let a = UsageAggregator::new();
    let entries = sample();
    assert!(a.totals_fit(&entries));
    let s = a.calculate_usage_stats(&entries);
    assert_eq!(s.total_cost, 900);
    assert_eq!(s.total_input_tokens, 19);
    assert_eq!(s.total_output_tokens, 32);
    assert_eq!(s.total_cache_read_tokens, 4);
    assert_eq!(s.total_cache_creation_tokens, 8);
    assert_eq!(s.total_tokens, 63);
    assert_eq!(s.session_count, 2);
    assert_eq!(s.entries.len(), 4);
    let model_sum: u64 = s.model_stats.iter().map(|m| m.total_cost).sum();
    assert_eq!(model_sum, s.total_cost);
}

#[test]
fn model_rows_by_cost() {
    let a = UsageAggregator::new();
    let rows = a.calculate_model_stats(&sample());
    let names: Vec<&str> = rows.iter().map(|r| r.model.as_str()).collect();
    assert_eq!(names, vec!["opus-4", "sonnet-4", "gpt-x"]);
    assert_eq!(rows[0].display_name, "Opus 4");
    assert_eq!(rows[0].total_cost, 800);
    assert_eq!(rows[0].input_tokens, 13);
    assert_eq!(rows[0].output_tokens, 24);
    assert_eq!(rows[0].total_tokens, 37);
    assert_eq!(rows[0].cache_read_tokens, 2);
    assert_eq!(rows[0].request_count, 2);
    assert_eq!(rows[2].display_name, "gpt-x");
}

#[test]
fn project_rows_with_sessions_and_last_use() {
    let a = UsageAggregator::new();
    let rows = a.calculate_project_stats(&sample());
    assert_eq!(rows.len(), 3);
    assert_eq!(rows[0].project_path, "/home/me/Github/widget-app/src");
    assert_eq!(rows[0].project_name, "widget-app");
    assert_eq!(rows[0].total_cost, 600);
    assert_eq!(rows[0].total_tokens, 33 + 6);
    assert_eq!(rows[0].session_count, 2);
    assert_eq!(rows[0].request_count, 2);
    assert_eq!(rows[0].last_used.secs, DAY3 + 100);
    assert_eq!(rows[1].project_path, "Unknown Project");
    assert_eq!(rows[1].project_name, "Unknown Project");
    assert_eq!(rows[1].session_count, 1);
    assert_eq!(rows[2].project_name, "tmp");
}

#[test]
fn session_rows_by_recency() {
    let a = UsageAggregator::new();
    let rows = a.calculate_session_stats(&sample());
    let keys: Vec<&str> = rows.iter().map(|r| r.session_key.as_str()).collect();
    assert_eq!(
        keys,
        vec![
            "/home/me/Github/widget-app/src:s1",
            "unknown:s1",
            "/tmp/scripts:unknown",
            "/home/me/Github/widget-app/src:s2",
        ]
    );
    assert_eq!(rows[1].project_path, "Unknown Project");
    assert_eq!(rows[1].session_id, "s1");
    assert_eq!(rows[2].session_id, "Unknown");
    assert_eq!(rows[0].timestamp.secs, DAY3 + 100);
}

#[test]
fn daily_rows_by_date_with_models() {
    let a = UsageAggregator::new();
    let rows = a.calculate_daily_usage(&sample());
    let dates: Vec<&str> = rows.iter().map(|r| r.date.as_str()).collect();
    assert_eq!(dates, vec!["2025-06-01", "2025-06-02", "2025-06-03"]);
    assert!(rows.iter().all(|r| r.date.len() == 10));
    assert_eq!(rows[0].models_used, vec!["sonnet-4".to_string(), "gpt-x".to_string()]);
    assert_eq!(rows[0].request_count, 2);
    assert_eq!(rows[0].total_cost, 100);
    assert_eq!(a.count_active_days(&sample()), 3);
}

#[test]
fn empty_input_gives_empty_views() {
    let a = UsageAggregator::new();
    let s = a.calculate_usage_stats(&Vec::new());
    assert_eq!(s.total_cost, 0);
    assert_eq!(s.total_tokens, 0);
    assert_eq!(s.session_count, 0);
    assert!(s.model_stats.is_empty() && s.project_stats.is_empty());
    assert!(s.session_stats.is_empty() && s.daily_usage.is_empty());
    assert!(s.is_empty());
    assert!(UsageStats::new().is_empty());
}

#[test]
fn non_empty_input_gives_non_empty_views() {
    let a = UsageAggregator::new();
    let s = a.aggregate_entries(sample());
    assert!(!s.model_stats.is_empty());
    assert!(!s.project_stats.is_empty());
    assert!(!s.session_stats.is_empty());
    assert!(!s.daily_usage.is_empty());
    assert!(!s.is_empty());
}

#[test]
fn last_seven_days_window() {
    let a = UsageAggregator::new();
    let entries = sample();
    let now = ts(DAY1 + 7 * 86400 + 60, 2025, 6, 8);
    let kept = a.filter_at(&entries, TimeRange::Last7Days, now);
    // the cutoff is DAY1 + 60: the record at DAY1 + 50 falls out, DAY1 + 70 stays
    assert_eq!(kept.len(), 3);
    assert!(kept.iter().all(|e| e.timestamp.secs >= DAY1 + 60));
    let all = a.filter_at(&entries, TimeRange::AllTime, now);
    assert_eq!(all.len(), 4);
    let month = a.filter_at(&entries, TimeRange::Last30Days, now);
    assert_eq!(month.len(), 4);
    assert_eq!(a.filter_by_time_range(&entries, TimeRange::AllTime).len(), 4);
}

#[test]
fn totals_that_overflow_are_reported() {
    let a = UsageAggregator::new();
    let big = vec![
        entry(ts(DAY1, 2025, 6, 1), "m", None, None, 1, 1, u64::MAX),
        entry(ts(DAY1, 2025, 6, 1), "m", None, None, 1, 1, 1),
    ];
    assert!(!a.totals_fit(&big));
}
