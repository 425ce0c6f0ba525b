use panel::log_manager::{classify_upper, first_some, LogManager};
use panel::models::{LogLevel, Timestamp};

const NOW: Timestamp = Timestamp { secs: 1_800_000_000, nanos: 7 };

fn at(secs: i64) -> Timestamp {
    Timestamp { secs, nanos: 0 }
}

#[test]
fn error_keyword_in_any_case_gives_error() {
    assert_eq!(LogManager::parse_log_line("ERROR: disk full", NOW).0, LogLevel::Error);
    assert_eq!(LogManager::parse_log_line("an error occurred", NOW).0, LogLevel::Error);
    assert_eq!(LogManager::parse_log_line("stderr closed", NOW).0, LogLevel::Error);
}

#[test]
fn warn_keyword_gives_warn() {
    assert_eq!(LogManager::parse_log_line("WARN retrying", NOW).0, LogLevel::Warn);
    assert_eq!(LogManager::parse_log_line("Warning: slow", NOW).0, LogLevel::Warn);
}

#[test]
fn debug_and_info_keywords() {
    assert_eq!(LogManager::parse_log_line("debug: x=1", NOW).0, LogLevel::Debug);
    assert_eq!(LogManager::parse_log_line("INFO started", NOW).0, LogLevel::Info);
}

#[test]
fn line_without_keyword_is_info() {
    assert_eq!(LogManager::parse_log_line("listening on :8080", NOW).0, LogLevel::Info);
    assert_eq!(LogManager::parse_log_line("", NOW).0, LogLevel::Info);
}

#[test]
fn error_wins_over_warn_and_warn_over_debug() {
    assert_eq!(LogManager::parse_log_line("WARN then ERROR", NOW).0, LogLevel::Error);
    assert_eq!(LogManager::parse_log_line("debug warn", NOW).0, LogLevel::Warn);
    assert_eq!(LogManager::parse_log_line("info debug", NOW).0, LogLevel::Debug);
}

#[test]
fn classify_upper_reads_only_upper_case() {
    assert_eq!(classify_upper("AN ERROR"), LogLevel::Error);
    assert_eq!(classify_upper("an error"), LogLevel::Info);
    assert_eq!(classify_upper("WARNING"), LogLevel::Warn);
    assert_eq!(classify_upper("DEBUG"), LogLevel::Debug);
}

#[test]
fn first_some_prefers_the_first() {
    assert_eq!(first_some(Some(at(1)), Some(at(2))), Some(at(1)));
    assert_eq!(first_some(None, Some(at(2))), Some(at(2)));
    assert_eq!(first_some(Some(at(1)), None), Some(at(1)));
    assert_eq!(first_some(None, None), None);
}

#[test]
fn whole_line_rfc3339_is_recognised() {
    assert_eq!(
        LogManager::parse_timestamp_from_line("2024-01-01T00:00:00Z"),
        Some(at(1_704_067_200))
    );
    assert_eq!(
        LogManager::parse_timestamp_from_line("2024-01-01T01:00:00+01:00"),
        Some(at(1_704_067_200))
    );
}

#[test]
fn rfc3339_keeps_the_fraction() {
    assert_eq!(
        LogManager::parse_timestamp_from_line("2024-01-01T00:00:00.250Z"),
        Some(Timestamp { secs: 1_704_067_200, nanos: 250_000_000 })
    );
}

#[test]
fn whole_line_bare_datetime_is_read_as_utc() {
    assert_eq!(
        LogManager::parse_timestamp_from_line("2024-01-01 00:00:00"),
        Some(at(1_704_067_200))
    );
    assert_eq!(
        LogManager::parse_timestamp_from_line("2024-01-02T03:04:05"),
        Some(at(1_704_164_645))
    );
}

#[test]
fn embedded_datetime_is_found() {
    assert_eq!(
        LogManager::parse_timestamp_from_line("[2024-01-02T03:04:05] server up"),
        Some(at(1_704_164_645))
    );
    assert_eq!(
        LogManager::parse_timestamp_from_line("started at 2024-01-02 03:04:05 ok"),
        Some(at(1_704_164_645))
    );
}

#[test]
fn t_pattern_is_searched_before_space_pattern() {
    assert_eq!(
        LogManager::parse_timestamp_from_line("a 2024-01-02 03:04:05 b 2024-01-01T00:00:00 c"),
        Some(at(1_704_067_200))
    );
}

#[test]
fn slash_date_is_matched_but_not_read() {
    assert_eq!(LogManager::parse_timestamp_from_line("2024/01/02 03:04:05 boot"), None);
}

#[test]
fn impossible_embedded_date_is_not_read() {
    assert_eq!(LogManager::parse_timestamp_from_line("at 2024-13-45T99:00:00 x"), None);
}

#[test]
fn line_without_timestamp_gets_now() {
    let (level, ts) = LogManager::parse_log_line("no date here", NOW);
    assert_eq!(level, LogLevel::Info);
    assert_eq!(ts, NOW);
    assert_eq!(LogManager::parse_timestamp_from_line("no date here"), None);
}

#[test]
fn line_with_timestamp_keeps_it() {
    let (level, ts) = LogManager::parse_log_line("2024-01-01 00:00:00", NOW);
    assert_eq!(level, LogLevel::Info);
    assert_eq!(ts, at(1_704_067_200));
}

#[test]
fn entry_from_line_holds_the_whole_line() {
    let e = LogManager::entry_from_line("api", "[2024-01-02T03:04:05] Error: boom", NOW);
    assert_eq!(e.service_id, "api");
    assert_eq!(e.message, "[2024-01-02T03:04:05] Error: boom");
    assert_eq!(e.level, LogLevel::Error);
    assert_eq!(e.timestamp, at(1_704_164_645));
}

#[test]
fn level_names_are_lower_case() {
    assert_eq!(LogLevel::Error.as_str(), "error");
    assert_eq!(LogLevel::Warn.as_str(), "warn");
    assert_eq!(LogLevel::Debug.as_str(), "debug");
    assert_eq!(LogLevel::Info.as_str(), "info");
}

#[test]
fn timestamps_order_by_seconds_then_nanos() {
    let a = Timestamp { secs: 5, nanos: 900 };
    let b = Timestamp { secs: 6, nanos: 0 };
    let c = Timestamp { secs: 6, nanos: 1 };
    assert!(a.is_not_after(&b));
    assert!(b.is_not_after(&c));
    assert!(!c.is_not_after(&b));
    assert!(b.is_not_after(&b));
    assert!(a.is_not_after(&c));
    assert!(!c.is_not_after(&a));
}
