//! Token limits per user and window.
use coulisse::limits::{
    CheckRequest, LimitError, RecordUsage, RequestLimits, Tracker, UserWindows, WindowKind,
    WindowRow,
};
use coulisse::names::NameMap;

const NOW: u64 = 1_700_000_000;

fn hourly(n: u64) -> RequestLimits {
    RequestLimits { tokens_per_hour: Some(n), ..Default::default() }
}

fn recorded(tokens: u64) -> Tracker {
    let mut tracker = Tracker::new();
    tracker.record(RecordUsage { tokens, user: "alice" }, NOW);
    tracker
}

#[test]
fn rejects_when_over_limit() {
    let tracker = recorded(100);
    let err =
        tracker.check(CheckRequest { limits: hourly(100), user: "alice" }, NOW).unwrap_err();
    match err {
        LimitError::Exceeded { window, used, limit, .. } => {
            assert_eq!(window, WindowKind::Hour);
            assert_eq!(used, 100);
            assert_eq!(limit, 100);
        }
        _ => panic!("expected Exceeded, got {err:?}"),
    }
}

#[test]
fn allows_under_limit() {
    recorded(50).check(CheckRequest { limits: hourly(100), user: "alice" }, NOW).unwrap();
}

#[test]
fn no_limits_always_passes() {
    recorded(1_000_000_000)
        .check(CheckRequest { limits: RequestLimits::default(), user: "alice" }, NOW)
        .unwrap();
}

#[test]
fn isolated_users() {
    let tracker = recorded(10);
    tracker.check(CheckRequest { limits: hourly(10), user: "alice" }, NOW).unwrap_err();
    tracker.check(CheckRequest { limits: hourly(10), user: "bob" }, NOW).unwrap();
}

#[test]
fn survives_process_restart() {
    let first = recorded(42);
    let windows = first.windows("alice");
    let mut second = Tracker::new();
    second.restore("alice".to_string(), windows);
    let err = second.check(CheckRequest { limits: hourly(42), user: "alice" }, NOW).unwrap_err();
    assert!(matches!(err, LimitError::Exceeded { used: 42, .. }));
}

#[test]
fn windows_reset_when_they_end() {
    let tracker = recorded(10);
    let next_hour = NOW / 3600 * 3600 + 3600;
    assert!(tracker
        .check(CheckRequest { limits: hourly(10), user: "alice" }, next_hour - 1)
        .is_err());
    assert!(tracker.check(CheckRequest { limits: hourly(10), user: "alice" }, next_hour).is_ok());
    let daily = RequestLimits { tokens_per_day: Some(10), ..Default::default() };
    assert!(matches!(
        tracker.check(CheckRequest { limits: daily, user: "alice" }, next_hour),
        Err(LimitError::Exceeded { window: WindowKind::Day, .. })
    ));
    let monthly = RequestLimits { tokens_per_month: Some(10), ..Default::default() };
    assert!(matches!(
        tracker.check(CheckRequest { limits: monthly, user: "alice" }, next_hour),
        Err(LimitError::Exceeded { window: WindowKind::Month, .. })
    ));
}

#[test]
fn exceeded_limit_tells_when_to_retry() {
    let err = recorded(100)
        .check(CheckRequest { limits: hourly(100), user: "alice" }, NOW)
        .unwrap_err();
    match err {
        LimitError::Exceeded { retry_after, .. } => {
            assert_eq!(retry_after, 3600 - NOW % 3600);
        }
        _ => panic!("expected Exceeded, got {err:?}"),
    }
}

#[test]
fn usage_adds_up_within_a_window() {
    let mut windows = UserWindows::new();
    windows.record(5, NOW);
    windows.record(7, NOW);
    assert_eq!(windows.count(WindowKind::Hour, NOW), 12);
    assert_eq!(windows.count(WindowKind::Month, NOW), 12);
    assert_eq!(windows.count(WindowKind::Hour, NOW + 3600), 0);
}

#[test]
fn negative_stored_counts_are_not_usage() {
    let windows = UserWindows {
        day: None,
        hour: Some(WindowRow { count: -5, start: (NOW / 3600 * 3600) as i64 }),
        month: None,
    };
    assert_eq!(windows.count(WindowKind::Hour, NOW), 0);
}

#[test]
fn limits_come_from_metadata() {
    let mut metadata = NameMap::new();
    metadata.insert("tokens_per_day".to_string(), "12".to_string());
    metadata.insert("other".to_string(), "x".to_string());
    let limits = RequestLimits::from_metadata(&metadata).unwrap();
    assert_eq!(limits.tokens_per_day, Some(12));
    assert_eq!(limits.tokens_per_hour, None);
    assert!(!limits.is_empty());
    assert!(RequestLimits::default().is_empty());
    metadata.insert("tokens_per_hour".to_string(), "many".to_string());
    let err = RequestLimits::from_metadata(&metadata).unwrap_err();
    match &err {
        LimitError::InvalidMetadata { key, value } => {
            assert_eq!(key, "tokens_per_hour");
            assert_eq!(value, "many");
        }
        _ => panic!("{err:?}"),
    }
    assert!(err.to_text().contains("tokens_per_hour"), "{}", err.to_text());
}

#[test]
fn window_kinds_have_names_and_sizes() {
    assert_eq!(WindowKind::Hour.size_secs(), 3600);
    assert_eq!(WindowKind::Day.size_secs(), 86_400);
    assert_eq!(WindowKind::Month.size_secs(), 30 * 86_400);
    assert_eq!(WindowKind::Hour.as_db_str(), "hour");
    assert_eq!(WindowKind::Day.to_text(), "daily");
}
