use ohmylogcat::stream::{truncate_line, LineAssembler, MAX_LINE_LEN};
use ohmylogcat::ui::pointer::PointerShape;

#[test]
fn assembler_joins_continuation_lines() {
    let mut a = LineAssembler::new();
    assert!(a.push_line("    orphan continuation").is_none());
    assert!(a.push_line("07-17 10:30:00.123  1  2 E Crash: boom").is_none());
    assert!(a.push_line("\tat Foo.bar(Foo.java:1)").is_none());
    let first = a.push_line("07-17 10:30:00.124  1  2 I Next: ok").unwrap();
    assert_eq!(first.tag, "Crash");
    // The parser joins the words of the whole entry text with single spaces.
    assert_eq!(first.message, "boom at Foo.bar(Foo.java:1)");
    let second = a.flush().unwrap();
    assert_eq!(second.tag, "Next");
    assert!(a.flush().is_none());
}

#[test]
fn truncate_marks_long_lines() {
    let long = "x".repeat(MAX_LINE_LEN + 5);
    let t = truncate_line(&long);
    assert!(t.ends_with("... [truncated]"));
    assert_eq!(t.len(), MAX_LINE_LEN + "... [truncated]".len());
    assert_eq!(truncate_line("short"), "short");
}

#[test]
fn pointer_escapes() {
    assert_eq!(PointerShape::Text.escape(), "\x1b]22;text\x1b\\");
    assert_eq!(PointerShape::Default.escape(), "\x1b]22;default\x1b\\");
}
