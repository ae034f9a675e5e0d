use servinel::logs::{LogBuffer, LogEntry, LogStream, LOG_BUFFER_CAPACITY};

fn entry(i: u64) -> LogEntry {
    LogEntry { timestamp: i, stream: LogStream::Stdout, line: format!("line{i}") }
}

#[test]
fn push_keeps_last_entries_in_order() {
    let mut b = LogBuffer::new(LOG_BUFFER_CAPACITY);
    for i in 0..1500u64 {
        b.push(entry(i));
    }
    assert_eq!(b.len(), 1000);
    let all = b.all();
    assert_eq!(all.len(), 1000);
    assert_eq!(all[0].line, "line500");
    assert_eq!(all[999].line, "line1499");
    for (k, e) in all.iter().enumerate() {
        assert_eq!(e.timestamp, 500 + k as u64);
    }
}

#[test]
fn push_below_capacity_keeps_everything() {
    let mut b = LogBuffer::default();
    for i in 0..7u64 {
        b.push(entry(i));
    }
    assert_eq!(b.len(), 7);
    assert_eq!(b.capacity(), 1000);
    assert_eq!(b.all().iter().map(|e| e.timestamp).collect::<Vec<_>>(), vec![0, 1, 2, 3, 4, 5, 6]);
}

#[test]
fn tail_bounds() {
    let mut b = LogBuffer::new(10);
    for i in 0..3u64 {
        b.push(entry(i));
    }
    assert_eq!(b.tail(5).len(), 3);
    assert!(b.tail(0).is_empty());
    let t = b.tail(2);
    assert_eq!(t[0].line, "line1");
    assert_eq!(t[1].line, "line2");
}

#[test]
fn clear_and_zero_capacity() {
    let mut b = LogBuffer::new(2);
    b.push(entry(1));
    b.clear();
    assert_eq!(b.len(), 0);
    let mut z = LogBuffer::new(0);
    z.push(entry(1));
    assert_eq!(z.len(), 0);
}
