//! The removal of expired rows.
use kepler_daemon::db_cleanup::{
    writer_settings, Cleanup, CleanupResult, StorageMode, BUSY_TIMEOUT_SECS,
    DEFAULT_CLEANUP_TIME_BUDGET,
};
use rusqlite::Connection;
use std::time::{Duration, Instant};

fn run_cleanup_batches(
    conn: &Connection,
    delete_sql: &str,
    cutoff_ms: i64,
    batch_size: i64,
    time_budget: Option<Duration>,
    discarded: bool,
) -> Result<CleanupResult, rusqlite::Error> {
    let cleanup = Cleanup { batch_size, time_budget: time_budget.map(|d| d.as_nanos()) };
    let start = Instant::now();
    loop {
        if let Some(end) = cleanup.before_batch(discarded) {
            return Ok(end);
        }
        let deleted = conn.execute(delete_sql, (cutoff_ms, batch_size))?;
        if let Some(end) = cleanup.after_batch(deleted, start.elapsed().as_nanos()) {
            return Ok(end);
        }
    }
}

fn setup_writer_connection(conn: &Connection, mode: StorageMode) -> Result<(), rusqlite::Error> {
    conn.busy_timeout(std::time::Duration::from_secs(BUSY_TIMEOUT_SECS))?;
    let (shared, own) = writer_settings(mode);
    conn.execute_batch(shared)?;
    conn.execute_batch(own)
}

fn create_test_table(conn: &Connection) {
    conn.execute_batch(
        "CREATE TABLE test_rows (
             id        INTEGER PRIMARY KEY,
             timestamp INTEGER NOT NULL
         );
         CREATE INDEX idx_test_ts ON test_rows(timestamp);",
    )
    .unwrap();
}

fn insert_rows(conn: &Connection, count: usize, start_ts: i64) {
    for i in 0..count {
        conn.execute("INSERT INTO test_rows (timestamp) VALUES (?1)", (start_ts + i as i64,))
            .unwrap();
    }
}

fn row_count(conn: &Connection) -> i64 {
    conn.query_row("SELECT COUNT(*) FROM test_rows", [], |r| r.get(0)).unwrap()
}

const DELETE_SQL: &str = "DELETE FROM test_rows WHERE id IN (SELECT id FROM test_rows WHERE timestamp < ?1 ORDER BY timestamp LIMIT ?2)";

fn table_with(count: usize) -> Connection {
    let conn = Connection::open_in_memory().unwrap();
    create_test_table(&conn);
    insert_rows(&conn, count, 100);
    conn
}

#[test]
fn cleanup_completes_when_all_deleted() {
    let conn = table_with(10);
    let result = run_cleanup_batches(&conn, DELETE_SQL, 200, 100, None, false).unwrap();
    assert!(matches!(result, CleanupResult::Complete));
    assert_eq!(row_count(&conn), 0);
}

#[test]
fn cleanup_respects_time_budget() {
    let conn = table_with(100);
    let zero = Some(Duration::ZERO);
    let result = run_cleanup_batches(&conn, DELETE_SQL, 1000, 10, zero, false).unwrap();
    assert!(matches!(result, CleanupResult::TimeBudgetExceeded));
    assert_eq!(row_count(&conn), 90);
}

#[test]
fn cleanup_respects_discard_flag() {
    let conn = table_with(10);
    let result = run_cleanup_batches(&conn, DELETE_SQL, 200, 5, None, true).unwrap();
    assert!(matches!(result, CleanupResult::Discarded));
    assert_eq!(row_count(&conn), 10);
}

#[test]
fn cleanup_no_budget_runs_to_completion() {
    let conn = table_with(100);
    let result = run_cleanup_batches(&conn, DELETE_SQL, 1000, 10, None, false).unwrap();
    assert!(matches!(result, CleanupResult::Complete));
    assert_eq!(row_count(&conn), 0);
}

#[test]
fn cleanup_cutoff_boundary_is_exclusive() {
    let conn = table_with(5);
    let result = run_cleanup_batches(&conn, DELETE_SQL, 102, 100, None, false).unwrap();
    assert!(matches!(result, CleanupResult::Complete));
    assert_eq!(row_count(&conn), 3);
    let min_ts: i64 =
        conn.query_row("SELECT MIN(timestamp) FROM test_rows", [], |r| r.get(0)).unwrap();
    assert_eq!(min_ts, 102);
}

#[test]
fn setup_writer_connection_local_mode() {
    let conn = Connection::open_in_memory().unwrap();
    setup_writer_connection(&conn, StorageMode::Local).unwrap();
    let journal: String = conn.query_row("PRAGMA journal_mode", [], |r| r.get(0)).unwrap();
    assert!(!journal.is_empty());
    let sync: i64 = conn.query_row("PRAGMA synchronous", [], |r| r.get(0)).unwrap();
    assert_eq!(sync, 1);
}

#[test]
fn setup_writer_connection_nfs_mode() {
    let conn = Connection::open_in_memory().unwrap();
    setup_writer_connection(&conn, StorageMode::Nfs).unwrap();
    let sync: i64 = conn.query_row("PRAGMA synchronous", [], |r| r.get(0)).unwrap();
    assert_eq!(sync, 2);
}

#[test]
fn full_batches_go_on_without_a_budget() {
    let cleanup = Cleanup { batch_size: 10, time_budget: None };
    assert_eq!(cleanup.after_batch(10, u128::MAX), None);
    assert_eq!(cleanup.after_batch(9, 0), Some(CleanupResult::Complete));
    assert_eq!(DEFAULT_CLEANUP_TIME_BUDGET, Duration::from_millis(25).as_nanos());
}

#[test]
fn budgets_below_a_millisecond_count() {
    let cleanup = Cleanup { batch_size: 10, time_budget: Some(500) };
    assert_eq!(cleanup.after_batch(10, 499), None);
    assert_eq!(cleanup.after_batch(10, 500), Some(CleanupResult::TimeBudgetExceeded));
}
