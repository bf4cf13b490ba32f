use ohmylogcat::desktop::buffer::RingBuffer;
use ohmylogcat::parser::{LogEntry, LogLevel};

fn make_entry(pid: u32, tag: &str, msg: &str) -> LogEntry {
    LogEntry {
        timestamp: "07-17 12:00:00.000".into(),
        pid,
        tid: pid,
        level: LogLevel::Info,
        tag: tag.into(),
        message: msg.into(),
    }
}

#[test]
fn test_push_and_iterate() {
    let mut buf = RingBuffer::new(3);
    assert_eq!(buf.len(), 0);
    assert_eq!(buf.capacity(), 3);

    buf.push(make_entry(1, "Tag1", "msg1"));
    buf.push(make_entry(2, "Tag2", "msg2"));
    assert_eq!(buf.len(), 2);

    let entries: Vec<_> = buf.iter().into_iter().collect();
    assert_eq!(entries.len(), 2);
    assert_eq!(entries[0].tag, "Tag1");
    assert_eq!(entries[1].tag, "Tag2");
}

#[test]
fn test_wrap_around() {
    let mut buf = RingBuffer::new(3);
    buf.push(make_entry(1, "A", "1"));
    buf.push(make_entry(2, "B", "2"));
    buf.push(make_entry(3, "C", "3"));
    assert_eq!(buf.len(), 3);

    // This should overwrite the oldest (A)
    buf.push(make_entry(4, "D", "4"));
    assert_eq!(buf.len(), 3);

    let entries: Vec<_> = buf.iter().into_iter().collect();
    assert_eq!(entries.len(), 3);
    assert_eq!(entries[0].tag, "B");
    assert_eq!(entries[1].tag, "C");
    assert_eq!(entries[2].tag, "D");
}

#[test]
fn test_clear() {
    let mut buf = RingBuffer::new(5);
    buf.push(make_entry(1, "A", "1"));
    buf.push(make_entry(2, "B", "2"));
    buf.clear();
    assert_eq!(buf.len(), 0);
    assert!(buf.iter().into_iter().next().is_none());
}

#[test]
fn test_set_capacity() {
    let mut buf = RingBuffer::new(5);
    buf.push(make_entry(1, "A", "1"));
    buf.push(make_entry(2, "B", "2"));
    buf.set_capacity(10);
    assert_eq!(buf.capacity(), 10);
    assert_eq!(buf.len(), 2);
}

#[test]
fn test_set_capacity_smaller() {
    let mut buf = RingBuffer::new(10);
    for i in 0..8 {
        buf.push(make_entry(i, "T", "m"));
    }
    buf.set_capacity(3);
    assert_eq!(buf.capacity(), 3);
    assert_eq!(buf.len(), 3);
}

#[test]
fn test_empty_buffer() {
    let buf = RingBuffer::new(5);
    assert_eq!(buf.len(), 0);
    assert!(buf.iter().into_iter().next().is_none());
}

#[test]
fn desktop_buffer_keeps_newest_after_many_wraps() {
    let mut buf = RingBuffer::new(4);
    for i in 0..11 {
        buf.push(make_entry(i, "T", "m"));
    }
    let pids: Vec<u32> = buf.iter().into_iter().map(|e| e.pid).collect();
    assert_eq!(pids, vec![7, 8, 9, 10]);
    buf.set_capacity(2);
    let pids: Vec<u32> = buf.iter().into_iter().map(|e| e.pid).collect();
    assert_eq!(pids, vec![9, 10]);
    buf.set_capacity(6);
    buf.push(make_entry(11, "T", "m"));
    let pids: Vec<u32> = buf.iter().into_iter().map(|e| e.pid).collect();
    assert_eq!(pids, vec![9, 10, 11]);
}
