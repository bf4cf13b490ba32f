use ohmylogcat::parser::{is_continuation_line, parse_threadtime_line, LogLevel};

#[test]
fn test_parse_valid_line() {
    let line = "07-17 10:30:00.123  1234  5678 I ActivityManager: Starting activity";
    let entry = parse_threadtime_line(line);
    assert!(entry.is_some());
    let e = entry.unwrap();
    assert_eq!(e.timestamp, "07-17 10:30:00.123");
    assert_eq!(e.pid, 1234);
    assert_eq!(e.tid, 5678);
    assert_eq!(e.level, LogLevel::Info);
    assert_eq!(e.tag, "ActivityManager");
    assert_eq!(e.message, "Starting activity");
}

#[test]
fn test_parse_tag_with_spaces() {
    let line = "07-17 10:30:00.456  9999  8888 W Binder:connection: Slow operation";
    let entry = parse_threadtime_line(line);
    assert!(entry.is_some());
    let e = entry.unwrap();
    // Trailing colon NOT part of tag — ":" before space is the tag-message separator
    assert_eq!(e.tag, "Binder:connection");
    assert_eq!(e.message, "Slow operation");
}

#[test]
fn test_parse_error_level() {
    let line = "07-17 10:30:01.000  1111  2222 E AndroidRuntime: FATAL EXCEPTION";
    let entry = parse_threadtime_line(line);
    assert!(entry.is_some());
    let e = entry.unwrap();
    assert_eq!(e.level, LogLevel::Error);
}

#[test]
fn test_parse_malformed_line() {
    assert!(parse_threadtime_line("garbage").is_none());
    assert!(parse_threadtime_line("").is_none());
    assert!(parse_threadtime_line("short").is_none());
}

#[test]
fn test_is_continuation_line() {
    assert!(is_continuation_line("    at com.example.Main.onCreate(Main.java:10)"));
    assert!(!is_continuation_line("07-17 10:30:00.123  1234  5678 I Tag: Msg"));
}

#[test]
fn test_parse_line_with_continuation_marker() {
    // Some logcat lines have leading whitespace indicating continuation
    let line = "07-17 10:31:00.000  3333  4444 D MyTag: Some message";
    let entry = parse_threadtime_line(line);
    assert!(entry.is_some());
    let e = entry.unwrap();
    assert_eq!(e.tag, "MyTag");
    assert_eq!(e.message, "Some message");
}

#[test]
fn parse_rejects_bad_numbers_levels_and_missing_separator() {
    assert!(parse_threadtime_line("07-17 10:30:00.123  12x4  5678 I Tag: m").is_none());
    assert!(parse_threadtime_line("07-17 10:30:00.123  1234  5678 Q Tag: m").is_none());
    assert!(parse_threadtime_line("07-17 10:30:00.123  1234  5678 I Tag-no-sep").is_none());
    assert!(parse_threadtime_line("07-17 10:30:00.123  99999999999  5678 I Tag: m").is_none());
}

#[test]
fn parse_all_levels_and_multiword_tag() {
    for (c, l) in [
        ('V', LogLevel::Verbose),
        ('D', LogLevel::Debug),
        ('I', LogLevel::Info),
        ('W', LogLevel::Warn),
        ('E', LogLevel::Error),
        ('F', LogLevel::Fatal),
    ] {
        let line = format!("07-17 10:30:00.123  1  2 {c} My  Tag: hi  there");
        let e = parse_threadtime_line(&line).unwrap();
        assert_eq!(e.level, l);
        assert_eq!(e.tag, "My Tag");
        assert_eq!(e.message, "hi there");
    }
    assert_eq!(LogLevel::from_char('x'), None);
    assert_eq!(LogLevel::Warn.to_display(), "Warn");
}
