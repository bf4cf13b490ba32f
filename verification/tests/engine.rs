use ohmylogcat::engine::{export_line, Engine};
use ohmylogcat::parser::{parse_threadtime_line, LogEntry, LogLevel};
use ohmylogcat::ui::find::FindState;

fn entry(pid: u32, level: LogLevel, tag: &str, msg: &str) -> LogEntry {
    LogEntry {
        timestamp: "07-17 12:00:00.000".into(),
        pid,
        tid: pid + 1,
        level,
        tag: tag.into(),
        message: msg.into(),
    }
}

fn filtered_pids(e: &Engine) -> Vec<u32> {
    e.copy_filtered_range(0, usize::MAX).iter().map(|x| x.pid).collect()
}

#[test]
fn engine_filtered_view_follows_buffer_drops() {
    let mut e = Engine::new(3);
    e.set_filter(None, None, Some(LogLevel::Warn));
    e.ingest_entry(entry(1, LogLevel::Warn, "A", "a"));
    e.ingest_entry(entry(2, LogLevel::Info, "B", "b"));
    e.ingest_entry(entry(3, LogLevel::Error, "C", "c"));
    assert_eq!(filtered_pids(&e), vec![1, 3]);
    assert_eq!(e.take_pending(), (2, 0));
    // Buffer full: the oldest (a match) leaves the view.
    e.ingest_entry(entry(4, LogLevel::Info, "D", "d"));
    assert_eq!(filtered_pids(&e), vec![3]);
    assert_eq!(e.take_pending(), (0, 1));
    e.ingest_entry(entry(5, LogLevel::Fatal, "E", "e"));
    assert_eq!(filtered_pids(&e), vec![3, 5]);
    assert_eq!(e.filtered_len(), 2);
    assert_eq!(e.filtered_get(1).unwrap().pid, 5);
    assert!(e.filtered_get(2).is_none());
    assert_eq!(e.buffer_len(), 3);
}

#[test]
fn engine_pause_counts_and_refilter() {
    let mut e = Engine::new(10);
    e.pause();
    assert!(e.is_paused());
    e.ingest_entry(entry(1, LogLevel::Info, "Net", "Timeout"));
    assert_eq!(e.take_pending(), (0, 0));
    e.resume();
    e.ingest_entry(entry(2, LogLevel::Info, "Ui", "click"));
    assert_eq!(e.take_pending(), (1, 0));
    e.set_filter(Some("Net".into()), Some("TIME".into()), None);
    assert_eq!(filtered_pids(&e), vec![1]);
    e.set_filter(Some(String::new()), Some(String::new()), None);
    assert_eq!(filtered_pids(&e), vec![1, 2]);
    e.set_capacity(1);
    assert_eq!(e.capacity(), 1);
    assert_eq!(filtered_pids(&e), vec![2]);
    e.clear_buffer();
    assert_eq!(e.filtered_len(), 0);
    assert_eq!(e.export_lines(true), Err("No log entries to export".to_string()));
}

#[test]
fn engine_stream_state_and_export() {
    let mut e = Engine::new(5);
    assert!(!e.is_streaming());
    e.ingest_entry(entry(42, LogLevel::Debug, "Tag", "one"));
    e.start_stream();
    assert!(e.is_streaming());
    assert_eq!(e.buffer_len(), 0);
    e.ingest_entry(entry(42, LogLevel::Debug, "Tag", "one"));
    e.ingest_entry(entry(7, LogLevel::Error, "T2", "two"));
    e.set_filter(None, None, Some(LogLevel::Error));
    let all = e.export_lines(false).unwrap();
    assert_eq!(all.len(), 2);
    assert_eq!(all[0], "07-17 12:00:00.000    42    43 D Tag: one\n");
    let only = e.export_lines(true).unwrap();
    assert_eq!(only, vec!["07-17 12:00:00.000     7     8 E T2: two\n".to_string()]);
    assert_eq!(export_line(&entry(123456, LogLevel::Info, "x", "y")), "07-17 12:00:00.000 123456 123457 I x: y\n");
    e.stop_stream();
    assert!(!e.is_streaming());
    assert_eq!(e.copy_filtered_range(5, 1).len(), 0);
}

#[test]
fn find_state_tracks_matches() {
    let mut e = Engine::new(10);
    e.ingest_entry(entry(1, LogLevel::Info, "Net", "Timeout A"));
    e.ingest_entry(entry(2, LogLevel::Info, "Ui", "click"));
    e.ingest_entry(entry(3, LogLevel::Info, "Net", "timeout B"));
    let mut f = FindState::default();
    f.open_bar();
    f.input.text = "  TIMEOUT ".into();
    f.recompute(&e);
    assert_eq!(f.matches, vec![0, 2]);
    assert!(f.is_active_with_matches());
    assert_eq!(f.counter_text(), "1/2");
    f.next();
    assert_eq!(f.current, 1);
    assert_eq!(f.scroll_to_match, Some(2));
    f.next();
    assert_eq!(f.current, 0);
    f.prev();
    assert_eq!(f.current_row(), Some(2));
    e.ingest_entry(entry(4, LogLevel::Info, "Net", "TIMEOUT c"));
    f.append_search(&e, 1);
    assert_eq!(f.matches, vec![0, 2, 3]);
    f.on_dropped_front(1);
    assert_eq!(f.matches, vec![1, 2]);
    assert_eq!(f.current, 1);
    f.input.text = "zzz".into();
    f.recompute(&e);
    assert_eq!(f.counter_text(), "0 matches");
    f.close();
    assert_eq!(f.counter_text(), "");
    assert!(!f.is_active_with_matches());
}

#[test]
fn live_find_matches_a_fresh_search() {
    let mut e = Engine::new(5);
    for i in 0..4u32 {
        let msg = if i % 2 == 0 { "disk full" } else { "ok" };
        e.ingest_entry(entry(i, LogLevel::Warn, "Io", msg));
    }
    let _ = e.take_pending();
    let mut live = FindState::default();
    live.open_bar();
    live.input.text = "FULL".into();
    live.recompute(&e);
    assert_eq!(live.matches, vec![0, 2]);
    // Four more rows: three old rows leave the view, four arrive.
    for i in 4..8u32 {
        let msg = if i % 3 == 0 { "full again" } else { "fine" };
        e.ingest_entry(entry(i, LogLevel::Warn, "Io", msg));
    }
    let (appended, dropped) = e.take_pending();
    assert_eq!((appended, dropped), (4, 3));
    live.on_dropped_front(dropped);
    live.append_search(&e, appended);
    let mut fresh = FindState::default();
    fresh.open_bar();
    fresh.input.text = "full".into();
    fresh.recompute(&e);
    assert_eq!(live.matches, fresh.matches);
    assert_eq!(fresh.matches, vec![3]);
}

#[test]
fn exported_line_parses_back() {
    let e = LogEntry {
        timestamp: "07-17 12:00:00.123".into(),
        pid: 1234,
        tid: 98765,
        level: LogLevel::Warn,
        tag: "ActivityManager".into(),
        message: "Slow operation: 120ms elapsed".into(),
    };
    let line = export_line(&e);
    assert!(line.ends_with('\n'));
    let back = parse_threadtime_line(line.trim_end_matches('\n')).unwrap();
    assert_eq!(back.timestamp, e.timestamp);
    assert_eq!((back.pid, back.tid, back.level), (e.pid, e.tid, e.level));
    assert_eq!(back.tag, e.tag);
    assert_eq!(back.message, e.message);
}

#[test]
fn export_uses_threadtime_level_letter() {
    let mut e = Engine::new(10);
    e.ingest_entry(LogEntry {
        timestamp: "07-17 10:30:00.123".into(),
        pid: 42,
        tid: 7,
        level: LogLevel::Info,
        tag: "MyApp".into(),
        message: "hello".into(),
    });
    assert_eq!(
        e.export_lines(false),
        Ok(vec!["07-17 10:30:00.123    42     7 I MyApp: hello\n".to_string()])
    );
}
