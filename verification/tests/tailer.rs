//! The bounded log buffer: capacity, eviction, the cursor-guarded
//! incremental reads, and the follow and pause semantics.

use rootwork::logs::{keep_since, log_window, read_entry, LogEntry, LogsContext};

fn entry(ts: u64, message: &str) -> LogEntry {
    LogEntry {
        timestamp_micros: ts,
        display_time: "?".to_string(),
        unit: "test.service".to_string(),
        message: message.to_string(),
        priority: 6,
    }
}

#[test]
fn capacity_is_never_exceeded() {
    let mut ctx = LogsContext::new();
    assert_eq!(ctx.max_entries, 1000);
    for i in 0..2500u64 {
        ctx.add_entry(entry(i, "m"));
        assert!(ctx.entries.len() <= ctx.max_entries);
    }
    assert_eq!(ctx.entries.len(), 1000);
    // The oldest records were evicted.
    assert_eq!(ctx.entries.front().unwrap().timestamp_micros, 1500);
}

#[test]
fn eviction_shifts_a_tracked_selection_down() {
    let mut ctx = LogsContext::new();
    for i in 0..1000u64 {
        ctx.add_entry(entry(i, "m"));
    }
    assert_eq!(ctx.entries.len(), 1000);
    ctx.selected = 500;
    ctx.add_entry(entry(1000, "m"));
    assert_eq!(ctx.entries.len(), 1000);
    assert_eq!(ctx.selected, 499);
}

#[test]
fn eviction_never_drives_the_selection_negative() {
    let mut ctx = LogsContext::new();
    for i in 0..1000u64 {
        ctx.add_entry(entry(i, "m"));
    }
    ctx.selected = 0;
    ctx.add_entry(entry(1000, "m"));
    assert_eq!(ctx.selected, 0);
}

#[test]
fn since_read_excludes_the_boundary_record() {
    let fresh = vec![entry(1_000_000, "old"), entry(1_000_001, "a"), entry(1_000_002, "b")];
    let kept = keep_since(fresh, 1_000_000);
    let stamps: Vec<u64> = kept.iter().map(|e| e.timestamp_micros).collect();
    assert_eq!(stamps, vec![1_000_001, 1_000_002]);
}

#[test]
fn since_read_is_capped_per_poll() {
    let fresh: Vec<LogEntry> = (0..600u64).map(|i| entry(i + 10, "m")).collect();
    let kept = keep_since(fresh, 0);
    assert_eq!(kept.len(), 500);
    assert_eq!(kept[0].timestamp_micros, 10);
    assert_eq!(kept[499].timestamp_micros, 509);
}

#[test]
fn refresh_follows_to_the_newest_record() {
    let mut ctx = LogsContext::new();
    assert!(ctx.follow_mode);
    ctx.refresh(vec![entry(1, "a"), entry(2, "b"), entry(3, "c")]);
    assert_eq!(ctx.entries.len(), 3);
    assert_eq!(ctx.selected, 2);
}

#[test]
fn pause_freezes_the_buffer() {
    let mut ctx = LogsContext::new();
    ctx.refresh(vec![entry(1, "a")]);
    ctx.toggle_pause();
    assert!(ctx.paused);
    assert!(ctx.poll_cursor().is_none());
    ctx.refresh(vec![entry(2, "b")]);
    assert_eq!(ctx.entries.len(), 1, "a poll while paused changes nothing");
    ctx.toggle_pause();
    assert_eq!(ctx.poll_cursor(), Some(1));
}

#[test]
fn poll_cursor_is_the_newest_stamp() {
    let mut ctx = LogsContext::new();
    assert_eq!(ctx.poll_cursor(), Some(0));
    ctx.refresh(vec![entry(7, "a"), entry(9, "b")]);
    assert_eq!(ctx.poll_cursor(), Some(9));
}

#[test]
fn manual_scroll_leaves_follow_mode() {
    let mut ctx = LogsContext::new();
    ctx.refresh(vec![entry(1, "a"), entry(2, "b"), entry(3, "c")]);
    assert!(ctx.follow_mode);
    ctx.move_up();
    assert!(!ctx.follow_mode);
    assert_eq!(ctx.selected, 1);
    // Reaching the newest record again re-enters follow mode.
    ctx.move_down();
    assert!(ctx.follow_mode);
    assert_eq!(ctx.selected, 2);
}

#[test]
fn page_moves_are_clamped() {
    let mut ctx = LogsContext::new();
    ctx.refresh((0..5u64).map(|i| entry(i, "m")).collect());
    ctx.page_up();
    assert_eq!(ctx.selected, 0);
    assert!(!ctx.follow_mode);
    ctx.page_down();
    assert_eq!(ctx.selected, 4);
    assert!(ctx.follow_mode);
}

#[test]
fn clear_discards_everything() {
    let mut ctx = LogsContext::new();
    ctx.refresh(vec![entry(1, "a"), entry(2, "b")]);
    ctx.clear();
    assert_eq!(ctx.entries.len(), 0);
    assert_eq!(ctx.selected, 0);
}

#[test]
fn load_entries_reseeds_the_buffer() {
    let mut ctx = LogsContext::new();
    ctx.refresh(vec![entry(1, "a")]);
    ctx.load_entries(vec![entry(5, "x"), entry(6, "y")]);
    assert_eq!(ctx.entries.len(), 2);
    assert_eq!(ctx.entries.front().unwrap().timestamp_micros, 5);
    assert_eq!(ctx.selected, 1);
}

#[test]
fn a_record_without_a_message_is_skipped() {
    assert!(read_entry(1, None, Some("u.service".to_string()), None, None).is_none());
}

#[test]
fn record_source_falls_back_to_syslog_then_system() {
    let a = read_entry(
        1,
        Some("m".to_string()),
        Some("u.service".to_string()),
        Some("syslogd".to_string()),
        None,
    )
    .unwrap();
    assert_eq!(a.unit, "u.service");
    let b = read_entry(1, Some("m".to_string()), None, Some("syslogd".to_string()), None).unwrap();
    assert_eq!(b.unit, "syslogd");
    let c = read_entry(1, Some("m".to_string()), None, None, None).unwrap();
    assert_eq!(c.unit, "system");
}

#[test]
fn record_priority_parses_or_defaults() {
    let p3 = read_entry(1, Some("m".to_string()), None, None, Some("3".to_string())).unwrap();
    assert_eq!(p3.priority, 3);
    let bad = read_entry(1, Some("m".to_string()), None, None, Some("abc".to_string())).unwrap();
    assert_eq!(bad.priority, 6);
    let big = read_entry(1, Some("m".to_string()), None, None, Some("999".to_string())).unwrap();
    assert_eq!(big.priority, 6);
    let absent = read_entry(1, Some("m".to_string()), None, None, None).unwrap();
    assert_eq!(absent.priority, 6);
}

#[test]
fn record_timestamps_render_as_fifteen_characters() {
    let e = read_entry(1_700_000_000_000_000, Some("m".to_string()), None, None, None).unwrap();
    assert_eq!(e.timestamp_micros, 1_700_000_000_000_000);
    assert_eq!(e.display_time.chars().count(), 15);
}

#[test]
fn log_window_pins_the_tail_or_the_cursor() {
    assert_eq!(log_window(5, 3, 10), 0, "everything fits");
    assert_eq!(log_window(100, 99, 10), 90, "following the tail");
    assert_eq!(log_window(100, 20, 10), 20, "a scrolled-back cursor leads");
}
