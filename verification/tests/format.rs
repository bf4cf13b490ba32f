use ohmylogcat::parser::{LogEntry, LogLevel};
use ohmylogcat::ui::format::{format_log_line, log_field_cols, message_column_indent, message_column_indent_line};

fn sample_entry() -> LogEntry {
    LogEntry {
        timestamp: "07-17 10:30:00.123".into(),
        pid: 42,
        tid: 7,
        level: LogLevel::Info,
        tag: "MyApp".into(),
        message: "hello".into(),
    }
}

#[test]
fn pads_short_pid_tid() {
    let line = format_log_line(&sample_entry());
    assert!(line.contains("   42"));
    assert!(line.contains("    7"));
}

#[test]
fn message_column_indent_matches_prefix() {
    let entry = sample_entry();
    let line = format_log_line(&entry);
    let indent = message_column_indent(&entry);
    assert_eq!(indent, message_column_indent_line(&line));
    let chars: Vec<char> = line.chars().collect();
    let msg: String = chars[indent..].iter().collect();
    assert_eq!(msg, "hello");
}

#[test]
fn log_field_cols_split_meta_and_message() {
    let entry = sample_entry();
    let line = format_log_line(&entry);
    let (level_col, msg_col) = log_field_cols(&entry);
    let chars: Vec<char> = line.chars().collect();
    assert_eq!(chars[level_col], 'I');
    assert_eq!(chars[msg_col..].iter().collect::<String>(), "hello");
    assert!(level_col < msg_col);
}

#[test]
fn format_log_line_exact_layout() {
    assert_eq!(
        format_log_line(&sample_entry()),
        "07-17 10:30:00.123    42     7 I MyApp: hello"
    );
    let compact = ohmylogcat::ui::log_list::format_log_line(&sample_entry());
    assert_eq!(compact, "07-17 10:30:00.123 42 7 I MyApp: hello");
    assert_eq!(message_column_indent_line("no separator"), 0);
    assert_eq!(message_column_indent_line("ab: c"), 4);
}

#[test]
fn message_column_counts_characters_with_cjk_tag() {
    let e = ohmylogcat::parser::LogEntry {
        timestamp: "07-17 10:30:00.123".into(),
        pid: 42,
        tid: 7,
        level: ohmylogcat::parser::LogLevel::Info,
        tag: "日志标签".into(),
        message: "你好".into(),
    };
    let line = format_log_line(&e);
    let indent = message_column_indent(&e);
    assert_eq!(message_column_indent_line(&line), indent);
    let msg: String = line.chars().skip(indent).collect();
    assert_eq!(msg, "你好");
}
