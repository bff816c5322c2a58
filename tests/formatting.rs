use usage_dashboard::formatting::{
    format_date, format_relative_time_at, format_timestamp, format_tokens, truncate_project_path,
};
use usage_dashboard::models::Timestamp;

#[test]
fn test_format_tokens() {
    assert_eq!(format_tokens(0), "0");
    assert_eq!(format_tokens(500), "500");
    assert_eq!(format_tokens(1_500), "1.5K");
    assert_eq!(format_tokens(2_500_000), "2.5M");
    assert_eq!(format_tokens(1_200_000_000), "1.2B");
}

#[test]
fn test_truncate_project_path() {
    assert_eq!(truncate_project_path("short", 20), "short");
    assert_eq!(truncate_project_path("/very/long/path/to/project", 15), ".../project");
    assert_eq!(truncate_project_path("toolongname", 8), "toolo...");
}

#[test]
fn format_tokens_boundaries() {
    assert_eq!(format_tokens(999), "999");
    assert_eq!(format_tokens(1_000), "1.0K");
    assert_eq!(format_tokens(1_049), "1.0K");
    assert_eq!(format_tokens(1_050), "1.0K");
    assert_eq!(format_tokens(1_051), "1.1K");
    assert_eq!(format_tokens(1_250), "1.2K");
    assert_eq!(format_tokens(1_750), "1.8K");
    assert_eq!(format_tokens(999_999), "1000.0K");
    assert_eq!(format_tokens(1_000_000), "1.0M");
    assert_eq!(format_tokens(u64::MAX), "18446744073.7B");
}

#[test]
fn truncate_keeps_exact_fit_and_two_part_paths() {
    assert_eq!(truncate_project_path("abcdefgh", 8), "abcdefgh");
    assert_eq!(truncate_project_path("/abcdefghij", 6), "/ab...");
    assert_eq!(truncate_project_path("a/b/c", 3), ".../c");
}

#[test]
fn dates_and_times_of_a_timestamp() {
    // 2025-06-03T08:05:09Z
    let t = Timestamp { secs: 1748937909, nanos: 0, year: 2025, month: 6, day: 3 };
    assert_eq!(format_date(&t), "2025-06-03");
    assert_eq!(format_timestamp(&t), "2025-06-03 08:05:09");
    // 1969-12-31T23:59:59Z
    let before_epoch = Timestamp { secs: -1, nanos: 0, year: 1969, month: 12, day: 31 };
    assert_eq!(format_timestamp(&before_epoch), "1969-12-31 23:59:59");
    let later = |s: i64| Timestamp { secs: t.secs + s, ..t };
    assert_eq!(format_relative_time_at(&t, &later(3 * 86400 + 5)), "3 days ago");
    assert_eq!(format_relative_time_at(&t, &later(7200)), "2 hours ago");
    assert_eq!(format_relative_time_at(&t, &later(150)), "2 minutes ago");
    assert_eq!(format_relative_time_at(&t, &later(59)), "Just now");
    assert_eq!(format_relative_time_at(&t, &later(-4000)), "Just now");
}
