use ohmylogcat::buffer::RingBuffer;
use ohmylogcat::parser::{LogEntry, LogLevel};

fn make_entry(pid: u32, tag: &str, msg: &str) -> LogEntry {
    LogEntry {
        timestamp: "07-17 12:00:00.000".into(),
        pid,
        tid: pid,
        level: LogLevel::Info,
        tag: tag.into(),
        message: msg.into(),
    }
}

#[test]
fn mod_test_push_and_iterate() {
    let mut buf = RingBuffer::new(3);
    assert_eq!(buf.len(), 0);
    assert_eq!(buf.capacity(), 3);

    buf.push(make_entry(1, "Tag1", "msg1"));
    buf.push(make_entry(2, "Tag2", "msg2"));
    assert_eq!(buf.len(), 2);

    let entries: Vec<_> = buf.iter().collect();
    assert_eq!(entries.len(), 2);
    assert_eq!(entries[0].tag, "Tag1");
    assert_eq!(entries[1].tag, "Tag2");
}

#[test]
fn mod_test_wrap_around() {
    let mut buf = RingBuffer::new(3);
    buf.push(make_entry(1, "A", "1"));
    buf.push(make_entry(2, "B", "2"));
    buf.push(make_entry(3, "C", "3"));
    assert_eq!(buf.len(), 3);

    // This should overwrite the oldest (A)
    let dropped = buf.push(make_entry(4, "D", "4"));
    assert_eq!(buf.len(), 3);
    assert_eq!(dropped.unwrap().tag, "A");

    let entries: Vec<_> = buf.iter().collect();
    assert_eq!(entries.len(), 3);
    assert_eq!(entries[0].tag, "B");
    assert_eq!(entries[1].tag, "C");
    assert_eq!(entries[2].tag, "D");
}

#[test]
fn mod_test_clear() {
    let mut buf = RingBuffer::new(5);
    buf.push(make_entry(1, "A", "1"));
    buf.push(make_entry(2, "B", "2"));
    buf.clear();
    assert_eq!(buf.len(), 0);
    assert!(buf.iter().next().is_none());
}

#[test]
fn test_empty_stays_compact() {
    let buf = RingBuffer::new(200_000);
    assert_eq!(buf.len(), 0);
    assert_eq!(buf.capacity(), 200_000);
    // Must not pre-allocate full-capacity empty slots.
    assert!(
        buf.allocated_capacity() < 1_000,
        "allocated {} slots for empty buffer",
        buf.allocated_capacity()
    );

    let mut buf = RingBuffer::new(50);
    for i in 0..10 {
        buf.push(make_entry(i, "T", "m"));
    }
    buf.clear_compact();
    assert_eq!(buf.len(), 0);
    assert!(
        buf.allocated_capacity() < 50,
        "clear_compact should shrink storage, got {}",
        buf.allocated_capacity()
    );
}

#[test]
fn mod_test_set_capacity() {
    let mut buf = RingBuffer::new(5);
    buf.push(make_entry(1, "A", "1"));
    buf.push(make_entry(2, "B", "2"));
    buf.set_capacity(10);
    assert_eq!(buf.capacity(), 10);
    assert_eq!(buf.len(), 2);
}

#[test]
fn mod_test_set_capacity_smaller() {
    let mut buf = RingBuffer::new(10);
    for i in 0..8 {
        buf.push(make_entry(i, "T", "m"));
    }
    buf.set_capacity(3);
    assert_eq!(buf.capacity(), 3);
    assert_eq!(buf.len(), 3);
    // Newest three retained
    let tags: Vec<_> = buf.iter().map(|e| e.pid).collect();
    assert_eq!(tags, vec![5, 6, 7]);
}

#[test]
fn mod_test_empty_buffer() {
    let buf = RingBuffer::new(5);
    assert_eq!(buf.len(), 0);
    assert!(buf.iter().next().is_none());
}

#[test]
fn ring_buffer_zero_capacity_holds_one_and_get_reads_by_age() {
    let mut buf = RingBuffer::new(0);
    assert_eq!(buf.capacity(), 1);
    assert!(buf.push(make_entry(1, "A", "1")).is_none());
    assert_eq!(buf.push(make_entry(2, "B", "2")).unwrap().tag, "A");
    assert_eq!(buf.get(0).unwrap().tag, "B");
    assert!(buf.get(1).is_none());
    assert!(!buf.is_empty());
}
