//! Cursors into logs.
use kepler_daemon::cursor::{discover_files, BatchLimits, CursorError, CursorManager};
use kepler_daemon::log_lines::{parse_entry, service_of_file, LogLine, LogQueue};
use kepler_daemon::name_map::NameMap;

const LIMITS: BatchLimits =
    BatchLimits { max_entries: 50_000, max_message_size: 10 * 1024 * 1024 };

const CONFIG: &str = "/fake/config.yaml";

/// Lines of one service that were not read yet.
struct Log {
    queue: LogQueue,
    manager: CursorManager,
    cursor: String,
}

impl Log {
    fn new(lines: impl Iterator<Item = String>) -> Self {
        Log::of(&[("svc", lines.enumerate().map(|(i, l)| (1000 + i as i64, l)).collect())])
    }

    /// The logs of services, with the time of each line.
    fn of(services: &[(&str, Vec<(i64, String)>)]) -> Self {
        let mut queue = LogQueue::new();
        for (i, (service, lines)) in services.iter().enumerate() {
            queue.add_log();
            for (timestamp, line) in lines {
                queue.add_line(
                    i,
                    LogLine {
                        timestamp: *timestamp,
                        service: service.to_string(),
                        line: line.clone(),
                    },
                );
            }
        }
        let mut manager = CursorManager::new(300);
        let cursor = manager.create_cursor(CONFIG.to_string(), 0, 0);
        Log { queue, manager, cursor }
    }

    /// The next batch, and whether there is more.
    fn entries(&mut self) -> (Vec<LogLine>, bool) {
        self.manager.read_entries(&self.cursor, CONFIG, 0, &mut self.queue, &LIMITS).unwrap()
    }

    /// The lines of the next batch, and whether there is more.
    fn read(&mut self) -> (Vec<String>, bool) {
        let (entries, has_more) = self.entries();
        (entries.into_iter().map(|e| e.line).collect(), has_more)
    }

    fn size_of(&self, line: &str) -> usize {
        20 + "svc".len() + line.len()
    }
}

#[test]
fn test_byte_budget_limits_large_lines() {
    let total = 2000;
    let large_payload = "X".repeat(10_000);
    let mut log = Log::new((0..total).map(|_| large_payload.clone()));
    let (entries, has_more) = log.read();
    assert!(entries.len() < total);
    assert!(has_more);
    let estimated: usize = entries.iter().map(|l| log.size_of(l)).sum();
    let max_entry = entries.iter().map(|l| log.size_of(l)).max().unwrap();
    assert!(estimated <= LIMITS.response_budget() + max_entry);
}

#[test]
fn test_small_lines_hit_count_limit() {
    let total = LIMITS.max_entries + 10_000;
    let mut log = Log::new((0..total).map(|i| format!("line-{}", i)));
    let (entries, has_more) = log.read();
    assert_eq!(entries.len(), LIMITS.max_entries);
    assert!(has_more);
}

#[test]
fn test_mixed_line_sizes_respect_budget() {
    let total = 10_000;
    let mut log = Log::new((0..total).map(|i| {
        if i % 10 == 0 {
            "H".repeat(50_000)
        } else {
            format!("small-{}", i)
        }
    }));
    let mut all_count = 0;
    let mut batches = 0;
    loop {
        let (entries, has_more) = log.read();
        if entries.len() > 1 {
            let batch_size: usize = entries.iter().map(|l| log.size_of(l)).sum();
            let max_entry = entries.iter().map(|l| log.size_of(l)).max().unwrap();
            assert!(batch_size <= LIMITS.response_budget() + max_entry);
        }
        all_count += entries.len();
        batches += 1;
        if !has_more {
            break;
        }
        assert!(batches < 500);
    }
    assert_eq!(all_count, total);
    assert!(batches > 1);
}

#[test]
fn test_cursor_reads_all_entries_no_data_loss() {
    let payload = "Y".repeat(5_000);
    let total: usize = 5_000;
    let mut log = Log::new((0..total).map(|i| format!("{}-{:05}", payload, i)));
    let mut all_entries = Vec::new();
    let mut iterations = 0;
    loop {
        let (entries, has_more) = log.entries();
        all_entries.extend(entries);
        iterations += 1;
        if !has_more {
            break;
        }
        assert!(iterations < 100);
    }
    assert_eq!(all_entries.len(), total);
    assert!(iterations > 1);
    for i in 1..all_entries.len() {
        assert!(all_entries[i - 1].timestamp <= all_entries[i].timestamp);
    }
    for (i, entry) in all_entries.iter().enumerate() {
        assert!(entry.line.ends_with(&format!("-{:05}", i)));
    }
}

#[test]
fn test_cursor_position_tracking_no_duplicates() {
    let payload = "Z".repeat(8_000);
    let total: usize = 3_000;
    let mut log = Log::new((0..total).map(|i| format!("{}-{:04}", payload, i)));
    let mut seen_indices = Vec::new();
    loop {
        let (entries, has_more) = log.read();
        for entry in &entries {
            let idx: usize = entry.rsplit('-').next().unwrap().parse().unwrap();
            seen_indices.push(idx);
        }
        if !has_more {
            break;
        }
    }
    assert_eq!(seen_indices.len(), total);
    for (i, &idx) in seen_indices.iter().enumerate() {
        assert_eq!(idx, i);
    }
}

#[test]
fn test_cursor_discovers_new_files() {
    let mut known = NameMap::new();
    let migration = ("migration.stdout.log".to_string(), Some(7));
    assert_eq!(discover_files(&mut known, &vec![migration.clone()]), vec![0]);
    assert!(discover_files(&mut known, &vec![migration.clone()]).is_empty());
    let web = ("web.stdout.log".to_string(), Some(8));
    assert_eq!(discover_files(&mut known, &vec![migration, web]), vec![1]);
    assert_eq!(known.get("web.stdout.log"), Some(&8));
}

#[test]
fn test_cursor_detects_replaced_file() {
    let mut known = NameMap::new();
    let path = "worker.stdout.log".to_string();
    discover_files(&mut known, &vec![(path.clone(), Some(1))]);
    assert_eq!(discover_files(&mut known, &vec![(path.clone(), Some(2))]), vec![0]);
    assert_eq!(known.get("worker.stdout.log"), Some(&2));
    assert!(discover_files(&mut known, &vec![(path, None)]).is_empty());
}

#[test]
fn test_cursor_config_mismatch() {
    let mut manager = CursorManager::new(300);
    let cursor_id = manager.create_cursor("/fake/config-a.yaml".to_string(), 0, 0);
    let result = manager.touch(&cursor_id, "/fake/config-b.yaml", 0);
    assert!(matches!(result, Err(CursorError::CursorConfigMismatch { .. })));
}

#[test]
fn test_cursor_expired_after_cleanup() {
    let mut manager = CursorManager::new(0);
    let cursor_id = manager.create_cursor(CONFIG.to_string(), 0, 100);
    manager.cleanup_stale(110);
    let result = manager.touch(&cursor_id, CONFIG, 110);
    assert!(matches!(result, Err(CursorError::CursorExpired(_))));
}

#[test]
fn test_cursor_nonexistent_id() {
    let mut manager = CursorManager::new(300);
    let result = manager.touch("cursor_does_not_exist", CONFIG, 0);
    assert!(matches!(result, Err(CursorError::CursorExpired(_))));
}

#[test]
fn test_invalidate_config_cursors_removes_matching() {
    let (config_a, config_b) = ("/fake/config-a.yaml", "/fake/config-b.yaml");
    let mut manager = CursorManager::new(300);
    let cursor_a = manager.create_cursor(config_a.to_string(), 1, 0);
    let cursor_b = manager.create_cursor(config_b.to_string(), 2, 0);
    assert!(manager.touch(&cursor_a, config_a, 0).is_ok());
    assert!(manager.touch(&cursor_b, config_b, 0).is_ok());
    manager.invalidate_config_cursors(config_a);
    assert!(matches!(
        manager.touch(&cursor_a, config_a, 0),
        Err(CursorError::CursorExpired(_))
    ));
    assert!(manager.touch(&cursor_b, config_b, 0).is_ok());
}

#[test]
fn test_invalidate_config_cursors_removes_all_for_config() {
    let mut manager = CursorManager::new(300);
    let cursor_1 = manager.create_cursor(CONFIG.to_string(), 1, 0);
    let cursor_2 = manager.create_cursor(CONFIG.to_string(), 2, 0);
    manager.invalidate_config_cursors(CONFIG);
    assert!(matches!(manager.touch(&cursor_1, CONFIG, 0), Err(CursorError::CursorExpired(_))));
    assert!(matches!(manager.touch(&cursor_2, CONFIG, 0), Err(CursorError::CursorExpired(_))));
}

#[test]
fn test_invalidate_connection_cursors_removes_matching() {
    let mut manager = CursorManager::new(300);
    let cursor_conn1 = manager.create_cursor(CONFIG.to_string(), 100, 0);
    let cursor_conn2 = manager.create_cursor(CONFIG.to_string(), 200, 0);
    manager.invalidate_connection_cursors(100);
    assert!(matches!(manager.touch(&cursor_conn1, CONFIG, 0), Err(CursorError::CursorExpired(_))));
    assert!(manager.touch(&cursor_conn2, CONFIG, 0).is_ok());
}

#[test]
fn test_invalidate_connection_cursors_removes_all_for_connection() {
    let (config_a, config_b) = ("/fake/config-a.yaml", "/fake/config-b.yaml");
    let mut manager = CursorManager::new(300);
    let cursor_1 = manager.create_cursor(config_a.to_string(), 42, 0);
    let cursor_2 = manager.create_cursor(config_b.to_string(), 42, 0);
    manager.invalidate_connection_cursors(42);
    assert!(matches!(manager.touch(&cursor_1, config_a, 0), Err(CursorError::CursorExpired(_))));
    assert!(matches!(manager.touch(&cursor_2, config_b, 0), Err(CursorError::CursorExpired(_))));
}

#[test]
fn test_invalidate_config_cursors_noop_when_no_match() {
    let mut manager = CursorManager::new(300);
    let cursor_id = manager.create_cursor(CONFIG.to_string(), 0, 0);
    manager.invalidate_config_cursors("/fake/other.yaml");
    assert!(manager.touch(&cursor_id, CONFIG, 0).is_ok());
}

#[test]
fn test_invalidate_connection_cursors_noop_when_no_match() {
    let mut manager = CursorManager::new(300);
    let cursor_id = manager.create_cursor(CONFIG.to_string(), 10, 0);
    manager.invalidate_connection_cursors(999);
    assert!(manager.touch(&cursor_id, CONFIG, 0).is_ok());
}

#[test]
fn names_are_counted_in_hexadecimal() {
    let mut manager = CursorManager::new(300);
    let mut last = String::new();
    for _ in 0..17 {
        last = manager.create_cursor(CONFIG.to_string(), 0, 0);
    }
    assert_eq!(last, "cursor_10");
    assert!(manager.has_cursor("cursor_f"));
}

#[test]
fn use_keeps_a_cursor() {
    let mut manager = CursorManager::new(1);
    let used = manager.create_cursor(CONFIG.to_string(), 0, 0);
    let idle = manager.create_cursor(CONFIG.to_string(), 0, 0);
    manager.touch(&used, CONFIG, 900).unwrap();
    manager.cleanup_stale(1000);
    assert!(manager.has_cursor(&used));
    assert!(!manager.has_cursor(&idle));
}

#[test]
fn cursor_errors_have_messages() {
    assert_eq!(
        CursorError::CursorExpired("c".to_string()).message(),
        "Cursor expired or invalid: c"
    );
    let mismatch = CursorError::CursorConfigMismatch {
        cursor_config: "/a \"b\"".to_string(),
        requested_config: "/c".to_string(),
    };
    assert_eq!(mismatch.message(), "Cursor belongs to config \"/a \\\"b\\\"\", not \"/c\"");
    assert_eq!(CursorError::IoError("gone".to_string()).message(), "IO error: gone");
}

fn queue_of(lines: &[&str]) -> LogQueue {
    let mut queue = LogQueue::new();
    queue.add_log();
    for line in lines {
        queue.add_line(
            0,
            LogLine { timestamp: 1, service: "s".to_string(), line: line.to_string() },
        );
    }
    queue
}

#[test]
fn first_entry_always_goes_in() {
    let limits = BatchLimits { max_entries: 10, max_message_size: 10 };
    let mut queue = queue_of(&["a line that is longer than the budget", "b"]);
    let (batch, more) = queue.read_batch(&limits);
    assert_eq!(batch.len(), 1);
    assert!(more);
    let (batch, more) = queue_of(&[]).read_batch(&limits);
    assert!(batch.is_empty());
    assert!(!more);
    assert_eq!(queue.log_count(), 1);
}

#[test]
fn sizes_are_counted_in_bytes() {
    let limits = BatchLimits { max_entries: 10, max_message_size: 60 };
    assert_eq!(limits.response_budget(), 48);
    assert_eq!(queue_of(&["ab", "ab"]).read_batch(&limits).0.len(), 2);
    assert_eq!(queue_of(&["ab", "\u{e4}\u{e4}\u{e4}"]).read_batch(&limits).0.len(), 1);
}

#[test]
fn test_multi_service_cursor_reads_all() {
    let line = |t: i64, l: &str| (t, l.to_string());
    let mut log = Log::of(&[
        ("alpha", vec![line(1000, "a1"), line(3000, "a2"), line(5000, "a3")]),
        ("beta", vec![line(2000, "b1"), line(4000, "b2"), line(6000, "b3")]),
    ]);
    let (entries, has_more) = log.entries();
    assert!(!has_more);
    assert_eq!(entries.len(), 6);
    let lines: Vec<&str> = entries.iter().map(|e| e.line.as_str()).collect();
    assert_eq!(lines, vec!["a1", "b1", "a2", "b2", "a3", "b3"]);
}

#[test]
fn lines_of_one_time_come_by_log() {
    let line = |t: i64, l: &str| (t, l.to_string());
    let mut log = Log::of(&[
        ("alpha", vec![line(2, "a1"), line(2, "a2")]),
        ("beta", vec![line(1, "b1"), line(2, "b2")]),
    ]);
    assert_eq!(log.read(), (vec!["b1", "a1", "a2", "b2"].iter().map(|s| s.to_string()).collect(), false));
}

#[test]
fn refused_reads_take_no_lines() {
    let mut queue = queue_of(&["a"]);
    let mut manager = CursorManager::new(300);
    let cursor = manager.create_cursor(CONFIG.to_string(), 0, 0);
    let other = manager.read_entries(&cursor, "/fake/other.yaml", 0, &mut queue, &LIMITS);
    assert!(matches!(other, Err(CursorError::CursorConfigMismatch { .. })));
    let gone = manager.read_entries("cursor_9", CONFIG, 0, &mut queue, &LIMITS);
    assert!(matches!(gone, Err(CursorError::CursorExpired(_))));
    let (entries, more) =
        manager.read_entries(&cursor, CONFIG, 0, &mut queue, &LIMITS).unwrap();
    assert_eq!(entries.len(), 1);
    assert!(!more);
}

#[test]
fn lines_of_files_have_a_time_and_a_text() {
    let line = parse_entry("web", "-12\ta\tb").unwrap();
    assert_eq!((line.timestamp, line.service.as_str(), line.line.as_str()), (-12, "web", "a\tb"));
    assert_eq!(parse_entry("web", "9223372036854775807\t").unwrap().timestamp, i64::MAX);
    assert_eq!(parse_entry("web", "-9223372036854775808\t").unwrap().timestamp, i64::MIN);
    assert!(parse_entry("web", "9223372036854775808\tx").is_none());
    assert!(parse_entry("web", "-9223372036854775809\tx").is_none());
    assert!(parse_entry("web", "12 no tab").is_none());
    assert!(parse_entry("web", "x\ty").is_none());
}

#[test]
fn files_are_named_after_services() {
    assert_eq!(service_of_file("web.stdout.log").as_deref(), Some("web"));
    assert_eq!(service_of_file("web.log"), None);
    assert_eq!(service_of_file("web.stdout.log.1"), None);
    assert_eq!(service_of_file("web"), None);
}
