use ohmylogcat::filter::{contains_ignore_case, FilterCriteria};
use ohmylogcat::parser::{LogEntry, LogLevel};

fn make_entry(level: LogLevel, tag: &str, msg: &str) -> LogEntry {
    LogEntry {
        timestamp: "07-17 12:00:00.000".into(),
        pid: 1234,
        tid: 5678,
        level,
        tag: tag.into(),
        message: msg.into(),
    }
}

#[test]
fn mod_test_no_filter_accepts_all() {
    let criteria = FilterCriteria::default();
    assert!(criteria.matches(&make_entry(LogLevel::Verbose, "Any", "any")));
    assert!(criteria.matches(&make_entry(LogLevel::Error, "X", "Y")));
}

#[test]
fn mod_test_tag_filter_case_sensitive() {
    let criteria = FilterCriteria {
        tag_substring: Some("OkHttp".into()),
        ..Default::default()
    };
    assert!(criteria.matches(&make_entry(LogLevel::Debug, "OkHttp", "msg")));
    assert!(criteria.matches(&make_entry(LogLevel::Debug, "my.OkHttp.class", "msg")));
    assert!(!criteria.matches(&make_entry(LogLevel::Debug, "okhttp", "msg")));
    assert!(!criteria.matches(&make_entry(LogLevel::Debug, "HTTP", "msg")));
}

#[test]
fn mod_test_message_filter_case_insensitive() {
    let mut criteria = FilterCriteria::default();
    criteria.set_message_filter(Some("timeout".into()));
    assert!(criteria.matches(&make_entry(LogLevel::Debug, "T", "request timeout occurred")));
    assert!(criteria.matches(&make_entry(LogLevel::Debug, "T", "Request Timeout")));
    assert!(!criteria.matches(&make_entry(LogLevel::Debug, "T", "connection reset")));
}

#[test]
fn test_message_filter_ascii_no_false_positive() {
    let mut criteria = FilterCriteria::default();
    criteria.set_message_filter(Some("abc".into()));
    assert!(criteria.matches(&make_entry(LogLevel::Debug, "T", "xxABC yy")));
    assert!(!criteria.matches(&make_entry(LogLevel::Debug, "T", "ab")));
}

#[test]
fn mod_test_min_level_filter() {
    let warn = FilterCriteria {
        min_level: Some(LogLevel::Warn),
        ..Default::default()
    };
    assert!(!warn.matches(&make_entry(LogLevel::Verbose, "T", "m")));
    assert!(!warn.matches(&make_entry(LogLevel::Debug, "T", "m")));
    assert!(!warn.matches(&make_entry(LogLevel::Info, "T", "m")));
    assert!(warn.matches(&make_entry(LogLevel::Warn, "T", "m")));
    assert!(warn.matches(&make_entry(LogLevel::Error, "T", "m")));
    assert!(warn.matches(&make_entry(LogLevel::Fatal, "T", "m")));
}

#[test]
fn mod_test_and_combination() {
    let mut criteria = FilterCriteria {
        tag_substring: Some("OkHttp".into()),
        min_level: Some(LogLevel::Warn),
        ..Default::default()
    };
    criteria.set_message_filter(Some("timeout".into()));
    assert!(criteria.matches(&make_entry(LogLevel::Error, "OkHttp", "request timeout")));
    assert!(!criteria.matches(&make_entry(LogLevel::Info, "OkHttp", "request timeout")));
    assert!(!criteria.matches(&make_entry(LogLevel::Error, "HTTP", "request timeout")));
    assert!(!criteria.matches(&make_entry(LogLevel::Error, "OkHttp", "connection reset")));
}

#[test]
fn mod_test_apply_filter() {
    let entries = vec![
        make_entry(LogLevel::Info, "TagA", "hello"),
        make_entry(LogLevel::Warn, "TagB", "world"),
        make_entry(LogLevel::Error, "TagA", "error occurred"),
    ];
    let criteria = FilterCriteria {
        tag_substring: Some("TagA".into()),
        ..Default::default()
    };
    let filtered: Vec<_> = entries.iter().filter(|e| criteria.matches(e)).cloned().collect();
    assert_eq!(filtered.len(), 2);
    assert_eq!(filtered[0].message, "hello");
    assert_eq!(filtered[1].message, "error occurred");
}

#[test]
fn message_filter_lowercases_and_drops_empty() {
    let mut criteria = FilterCriteria::default();
    criteria.set_message_filter(Some("TimeOut".into()));
    assert_eq!(criteria.message_substring.as_deref(), Some("timeout"));
    criteria.set_message_filter(Some(String::new()));
    assert!(criteria.message_substring.is_none());
    assert!(contains_ignore_case("ÄBC Straße", "straße"));
    assert!(contains_ignore_case("anything", ""));
    assert!(!contains_ignore_case("abc", "abd"));
}
