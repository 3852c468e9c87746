use craftmc::console::{console_log_path_for, lagged_notice, new_console_log_path, ConsoleBuffer, LineBatch};

#[test]
fn numbering_and_capacity() {
    let mut c = ConsoleBuffer::new(3);
    for i in 0..5 {
        let e = c.push_at("stdout", format!("line {i}"), 100 + i);
        assert_eq!(e.seq, (i + 1) as u64);
        assert_eq!(e.ts, 100 + i);
    }
    assert_eq!(c.len(), 3);
    assert_eq!(c.next_seq_value(), 6);
    let snap = c.snapshot(10);
    let seqs: Vec<u64> = snap.iter().map(|l| l.seq).collect();
    assert_eq!(seqs, vec![3, 4, 5]);
    let last = c.snapshot(2);
    assert_eq!(last[0].line, "line 3");
    assert_eq!(last[1].line, "line 4");
    assert!(c.snapshot(0).is_empty());
}

#[test]
fn system_lines_are_kept() {
    let mut c = ConsoleBuffer::new(5000);
    let e = c.push("system", "Auto-backup starting...".to_string());
    assert_eq!(e.stream, "system");
    assert_eq!(e.seq, 1);
    assert_eq!(c.snapshot(500).len(), 1);
}

#[test]
fn batches_flush_at_eighty() {
    let mut c = ConsoleBuffer::new(1000);
    let mut b = LineBatch::new();
    assert!(!b.due_on_tick());
    for i in 0..79 {
        let l = c.push_at("stdout", format!("{i}"), 0);
        assert!(!b.push(l));
    }
    assert!(b.due_on_tick());
    let l = c.push_at("stdout", "last".to_string(), 0);
    assert!(b.push(l));
    let sent = b.take();
    assert_eq!(sent.len(), 80);
    assert!(!b.due_on_tick());
}

#[test]
fn log_file_names() {
    assert_eq!(console_log_path_for("20240101-120000"), "data/logs/console-20240101-120000.log");
    let p = new_console_log_path();
    assert!(p.starts_with("data/logs/console-") && p.ends_with(".log"));
    assert_eq!(p.len(), "data/logs/console-20240101-120000.log".len());
}

#[test]
fn lagged_browsers_get_a_notice() {
    assert_eq!(lagged_notice(12), "[manager] dropped 12 buffered lines");
    assert_eq!(lagged_notice(0), "[manager] dropped 0 buffered lines");
}
