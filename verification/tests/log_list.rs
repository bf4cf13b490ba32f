use ohmylogcat::parser::LogLevel;
use ohmylogcat::ui::log_list::{highlight_segments, level_color};
use ohmylogcat::ui::theme::Color;

fn segs(v: &[(&str, bool)]) -> Vec<(String, bool)> {
    v.iter().map(|(s, b)| (s.to_string(), *b)).collect()
}

#[test]
fn highlight_marks_every_case_insensitive_hit() {
    assert_eq!(
        highlight_segments("Hello hello HELLO", "hello"),
        segs(&[("Hello", true), (" ", false), ("hello", true), (" ", false), ("HELLO", true)])
    );
    assert_eq!(
        highlight_segments("abcabcx", "  BC "),
        segs(&[("a", false), ("bc", true), ("a", false), ("bc", true), ("x", false)])
    );
}

#[test]
fn highlight_without_query_or_hits() {
    assert_eq!(highlight_segments("plain row", "   "), segs(&[("plain row", false)]));
    assert_eq!(highlight_segments("", ""), segs(&[("", false)]));
    assert_eq!(highlight_segments("plain row", "zzz"), segs(&[("plain row", false)]));
    assert_eq!(highlight_segments("", "x"), segs(&[]));
}

#[test]
fn highlight_hits_do_not_overlap() {
    assert_eq!(
        highlight_segments("aaaa", "aa"),
        segs(&[("aa", true), ("aa", true)])
    );
    assert_eq!(highlight_segments("aaa", "aa"), segs(&[("aa", true), ("a", false)]));
}

#[test]
fn list_level_colors() {
    assert_eq!(level_color(LogLevel::Warn), Color::Rgb(180, 120, 0));
    assert_eq!(level_color(LogLevel::Fatal), level_color(LogLevel::Error));
    assert_eq!(level_color(LogLevel::Verbose), Color::Rgb(150, 150, 150));
}
