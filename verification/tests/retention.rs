use retention::cutoff::cutoff_millis;
use retention::cutoff::current_cutoff_millis;
use retention::cutoff::MILLIS_PER_DAY;
use retention::engine::batch_is_bounded;
use retention::engine::continue_after_batch;
use retention::engine::delete_batch;
use retention::engine::run_all;
use retention::engine::run_cleanup;
use retention::engine::timeout_enabled;
use retention::engine::CleanupError;
use retention::engine::FaultKind;
use retention::engine::TablePass;
use retention::ident::is_valid_tname;
use retention::parse::parse_duration;
use retention::parse::parse_ssl_mode;
use retention::parse::str_eq;
use retention::parse::DurationError;
use retention::parse::ParseError;
use retention::parse::SslMode;
use retention::parse::TableConfig;
use retention::sqlgen::build_delete_stmt;

#[test]
fn valid_tname_accepts_safe_charset() {
    assert!(is_valid_tname("orders_2024"));
    assert!(is_valid_tname("A1_b2"));
    assert!(is_valid_tname(""));
    assert!(!is_valid_tname("or-ders"));
    assert!(!is_valid_tname("tab le"));
    assert!(!is_valid_tname("a;drop"));
    assert!(!is_valid_tname("naïve"));
}

#[test]
fn parse_full_spec() {
    let c = TableConfig::parse("orders:created_at:30").unwrap();
    assert_eq!(c.name, "orders");
    assert_eq!(c.timestamp_column, "created_at");
    assert_eq!(c.days, 30);
}

#[test]
fn parse_name_only_defaults() {
    let c = TableConfig::parse("orders").unwrap();
    assert_eq!(c.name, "orders");
    assert_eq!(c.timestamp_column, "created_at");
    assert_eq!(c.days, 0);
}

#[test]
fn parse_empty_column_defaults() {
    let c = TableConfig::parse("orders::30").unwrap();
    assert_eq!(c.timestamp_column, "created_at");
    assert_eq!(c.days, 30);
}

#[test]
fn parse_column_only() {
    let c = TableConfig::parse("orders:updated_at").unwrap();
    assert_eq!(c.timestamp_column, "updated_at");
    assert_eq!(c.days, 0);
}

#[test]
fn parse_empty_days_defaults() {
    let c = TableConfig::parse("orders:updated_at:").unwrap();
    assert_eq!(c.timestamp_column, "updated_at");
    assert_eq!(c.days, 0);
}

#[test]
fn parse_plus_sign_days() {
    let c = TableConfig::parse("orders:created_at:+7").unwrap();
    assert_eq!(c.days, 7);
}

#[test]
fn parse_rejects_extra_segments() {
    assert_eq!(
        TableConfig::parse("orders:created_at:7:junk").unwrap_err(),
        ParseError::InvalidRetention
    );
    assert_eq!(
        TableConfig::parse("orders:created_at:7:8").unwrap_err(),
        ParseError::InvalidRetention
    );
}

#[test]
fn parse_rejects_bad_name() {
    assert_eq!(TableConfig::parse("or-ders").unwrap_err(), ParseError::InvalidIdentifier);
    assert_eq!(TableConfig::parse("").unwrap_err(), ParseError::InvalidIdentifier);
    assert_eq!(TableConfig::parse(":col:1").unwrap_err(), ParseError::InvalidIdentifier);
    assert_eq!(TableConfig::parse("tab le:col").unwrap_err(), ParseError::InvalidIdentifier);
}

#[test]
fn parse_rejects_bad_column() {
    assert_eq!(TableConfig::parse("orders:cre-ated").unwrap_err(), ParseError::InvalidIdentifier);
    assert_eq!(TableConfig::parse("orders:c c:1").unwrap_err(), ParseError::InvalidIdentifier);
}

#[test]
fn parse_rejects_bad_days() {
    assert_eq!(TableConfig::parse("orders:created_at:abc").unwrap_err(), ParseError::InvalidRetention);
    assert_eq!(TableConfig::parse("orders:created_at:-5").unwrap_err(), ParseError::InvalidRetention);
    assert_eq!(
        TableConfig::parse("orders:created_at:99999999999999999999").unwrap_err(),
        ParseError::InvalidRetention
    );
    assert_eq!(TableConfig::parse("orders:created_at:1.5").unwrap_err(), ParseError::InvalidRetention);
}

#[test]
fn parse_minus_zero_days() {
    let c = TableConfig::parse("orders:created_at:-0").unwrap();
    assert_eq!(c.days, 0);
}

#[test]
fn duration_parses_seconds() {
    assert_eq!(parse_duration("60s").unwrap(), 60);
    assert_eq!(parse_duration("0s").unwrap(), 0);
    assert_eq!(parse_duration("+5s").unwrap(), 5);
}

#[test]
fn duration_requires_suffix() {
    assert_eq!(parse_duration("60").unwrap_err(), DurationError::MissingSuffix);
    assert_eq!(parse_duration("").unwrap_err(), DurationError::MissingSuffix);
}

#[test]
fn duration_rejects_bad_number() {
    assert_eq!(parse_duration("abs").unwrap_err(), DurationError::InvalidNumber);
    assert_eq!(parse_duration("s").unwrap_err(), DurationError::InvalidNumber);
    assert_eq!(parse_duration("-5s").unwrap_err(), DurationError::InvalidNumber);
    assert_eq!(
        parse_duration("99999999999999999999999s").unwrap_err(),
        DurationError::InvalidNumber
    );
}

#[test]
fn ssl_mode_recognizes_documented_names() {
    assert_eq!(parse_ssl_mode("disable"), Some(SslMode::Disable));
    assert_eq!(parse_ssl_mode("require"), Some(SslMode::Require));
    assert_eq!(parse_ssl_mode("verify-ca"), Some(SslMode::VerifyCa));
    assert_eq!(parse_ssl_mode("verify-full"), Some(SslMode::VerifyFull));
    assert_eq!(parse_ssl_mode("tls"), None);
    assert_eq!(parse_ssl_mode("Disable"), None);
}

#[test]
fn str_eq_compares_contents() {
    assert!(str_eq("abc", "abc"));
    assert!(!str_eq("abc", "abd"));
    assert!(!str_eq("abc", "ab"));
}

#[test]
fn statement_bounded_shape() {
    let s = build_delete_stmt("orders", "created_at", true);
    assert_eq!(
        s,
        "DELETE FROM \"orders\" WHERE ctid IN (SELECT ctid FROM \"orders\" \
         WHERE \"created_at\" < $1 ORDER BY \"created_at\" LIMIT $2)"
    );
}

#[test]
fn statement_unbounded_shape() {
    let s = build_delete_stmt("sessions", "ts", false);
    assert_eq!(
        s,
        "DELETE FROM \"sessions\" WHERE ctid IN (SELECT ctid FROM \"sessions\" \
         WHERE \"ts\" < $1 ORDER BY \"ts\")"
    );
}

#[test]
fn cutoff_subtracts_days() {
    assert_eq!(cutoff_millis(1_000_000, 0), 1_000_000);
    assert_eq!(cutoff_millis(0, 1), -MILLIS_PER_DAY);
    assert_eq!(cutoff_millis(30 * MILLIS_PER_DAY, 30), 0);
}

#[test]
fn cutoff_saturates_on_huge_age() {
    assert_eq!(cutoff_millis(0, i64::MAX), i64::MIN);
}

#[test]
fn current_cutoff_is_nonnegative_for_zero_days() {
    assert!(current_cutoff_millis(0) >= 0);
}

#[test]
fn batch_deletes_at_most_limit_oldest_first() {
    let mut rows: Vec<i64> = vec![10, 1, 2, 3];
    let deleted = delete_batch(&mut rows, 6, 2);
    assert_eq!(deleted, 2);
    assert_eq!(rows, vec![10, 3]);
}

#[test]
fn batch_unbounded_deletes_all_eligible() {
    let mut rows: Vec<i64> = vec![1, 7, 2, 8, 3];
    let deleted = delete_batch(&mut rows, 6, 0);
    assert_eq!(deleted, 3);
    assert_eq!(rows, vec![7, 8]);
}

#[test]
fn bounded_pass_drains_in_batches() {
    let mut rows: Vec<i64> = vec![1, 2, 3, 4, 5, 10];
    let report = run_cleanup(&mut rows, 6, 2, 0, FaultKind::NoFault).unwrap();
    assert_eq!(report.total_deleted, 5);
    assert_eq!(report.transactions, 4);
    assert_eq!(rows, vec![10]);
}

#[test]
fn unbounded_pass_is_single_statement() {
    let mut rows: Vec<i64> = vec![1, 2, 3, 4, 5, 10];
    let report = run_cleanup(&mut rows, 6, 0, 0, FaultKind::NoFault).unwrap();
    assert_eq!(report.total_deleted, 5);
    assert_eq!(report.transactions, 1);
    assert_eq!(rows, vec![10]);
}

#[test]
fn empty_eligible_set_terminates_immediately() {
    let mut rows: Vec<i64> = vec![10, 11];
    let report = run_cleanup(&mut rows, 6, 2, 0, FaultKind::NoFault).unwrap();
    assert_eq!(report.total_deleted, 0);
    assert_eq!(report.transactions, 1);
    assert_eq!(rows, vec![10, 11]);
}

#[test]
fn row_at_cutoff_survives_row_older_is_deleted() {
    let mut rows: Vec<i64> = vec![100, 99];
    let report = run_cleanup(&mut rows, 100, 10, 0, FaultKind::NoFault).unwrap();
    assert_eq!(report.total_deleted, 1);
    assert_eq!(rows, vec![100]);
}

#[test]
fn timeout_at_first_transaction_leaves_rows_untouched() {
    let mut rows: Vec<i64> = vec![1, 2, 3, 4, 5, 10];
    let err = run_cleanup(&mut rows, 6, 2, 0, FaultKind::Timeout).unwrap_err();
    assert_eq!(err, CleanupError::TimedOut);
    assert_eq!(rows, vec![1, 2, 3, 4, 5, 10]);
}

#[test]
fn timeout_mid_pass_keeps_only_committed_batches() {
    let mut rows: Vec<i64> = vec![1, 2, 3, 4, 5, 10];
    let err = run_cleanup(&mut rows, 6, 2, 1, FaultKind::Timeout).unwrap_err();
    assert_eq!(err, CleanupError::TimedOut);
    assert_eq!(rows, vec![3, 4, 5, 10]);
}

#[test]
fn database_error_surfaces_as_execution_failed() {
    let mut rows: Vec<i64> = vec![1, 10];
    let err = run_cleanup(&mut rows, 6, 0, 0, FaultKind::DbError).unwrap_err();
    assert_eq!(err, CleanupError::ExecutionFailed);
    assert_eq!(rows, vec![1, 10]);
}

#[test]
fn fault_beyond_pass_end_is_never_reached() {
    let mut rows: Vec<i64> = vec![1, 10];
    let report = run_cleanup(&mut rows, 6, 2, 5, FaultKind::Timeout).unwrap();
    assert_eq!(report.total_deleted, 1);
    assert_eq!(rows, vec![10]);
}

#[test]
fn failed_table_does_not_stop_later_tables() {
    let passes = vec![
        TablePass { rows: vec![1, 2, 3], cutoff: 6, fault_tx: 0, fault: FaultKind::Timeout },
        TablePass { rows: vec![1, 2, 3], cutoff: 6, fault_tx: 0, fault: FaultKind::NoFault },
    ];
    let outs = run_all(&passes, 2);
    assert_eq!(outs.len(), 2);
    assert_eq!(outs[0].result.unwrap_err(), CleanupError::TimedOut);
    assert_eq!(outs[0].remaining, vec![1, 2, 3]);
    let ok = outs[1].result.unwrap();
    assert_eq!(ok.total_deleted, 3);
    assert_eq!(outs[1].remaining, Vec::<i64>::new());
}

#[test]
fn two_table_run_orders_and_sessions() {
    let now = 100 * MILLIS_PER_DAY;
    let orders = TableConfig::parse("orders:created_at:30").unwrap();
    let sessions = TableConfig::parse("sessions::0").unwrap();
    let orders_cutoff = cutoff_millis(now, orders.days);
    let sessions_cutoff = cutoff_millis(now, sessions.days);
    assert_eq!(orders_cutoff, 70 * MILLIS_PER_DAY);
    assert_eq!(sessions_cutoff, now);
    let passes = vec![
        TablePass {
            rows: vec![50 * MILLIS_PER_DAY, 69 * MILLIS_PER_DAY, 70 * MILLIS_PER_DAY, 99 * MILLIS_PER_DAY],
            cutoff: orders_cutoff,
            fault_tx: 0,
            fault: FaultKind::NoFault,
        },
        TablePass {
            rows: vec![0, 50 * MILLIS_PER_DAY],
            cutoff: sessions_cutoff,
            fault_tx: 0,
            fault: FaultKind::NoFault,
        },
    ];
    let outs = run_all(&passes, 100);
    let orders_report = outs[0].result.unwrap();
    assert_eq!(orders_report.total_deleted, 2);
    assert_eq!(outs[0].remaining, vec![70 * MILLIS_PER_DAY, 99 * MILLIS_PER_DAY]);
    let sessions_report = outs[1].result.unwrap();
    assert_eq!(sessions_report.total_deleted, 2);
    assert_eq!(outs[1].remaining, Vec::<i64>::new());
}

#[test]
fn loop_decisions_follow_batch_mode() {
    assert!(batch_is_bounded(1));
    assert!(!batch_is_bounded(0));
    assert!(!batch_is_bounded(-1));
    assert!(continue_after_batch(2, 2));
    assert!(!continue_after_batch(2, 0));
    assert!(!continue_after_batch(0, 5));
    assert!(timeout_enabled(60));
    assert!(!timeout_enabled(0));
}
