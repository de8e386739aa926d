use cubert::storage::{sqlite_connect_url, DbStrategy, StorageError, StrategyKind};

#[test]
fn sqlite_urls_open_read_write_create() {
    assert_eq!(sqlite_connect_url("sqlite:cubert.db"), "sqlite:cubert.db?mode=rwc");
    assert_eq!(sqlite_connect_url("sqlite::memory:"), "sqlite::memory:?mode=rwc");
    assert_eq!(sqlite_connect_url("sqlite:x.db?cache=shared"), "sqlite:x.db?cache=shared&mode=rwc");
    assert_eq!(sqlite_connect_url("sqlite:x.db?mode=ro"), "sqlite:x.db?mode=ro");
    assert_eq!(sqlite_connect_url("postgres://h/db"), "postgres://h/db");
}

#[test]
fn new_strategy_rows() {
    let s = DbStrategy::new("fast_momentum".to_string(), StrategyKind::Momentum, "{}".to_string());
    assert_eq!(s.name, "fast_momentum");
    assert_eq!(s.strategy_type, "momentum");
    assert_eq!(s.params_json, "{}");
    assert_eq!(s.created_at, s.updated_at);
    assert_eq!(s.id.len(), 36);
    assert_eq!(s.id.as_bytes()[8], b'-');
    let stamp = s.created_at.as_bytes();
    assert_eq!(stamp[4], b'-');
    assert_eq!(stamp[10], b'T');
    assert_eq!(stamp[13], b':');
    assert!(s.created_at.ends_with("+00:00"));
    let t = DbStrategy::new("x".to_string(), StrategyKind::MeanReversion, "{}".to_string());
    assert_eq!(t.strategy_type, "mean_reversion");
    assert_ne!(s.id, t.id);
    assert_eq!(StrategyKind::Custom.column_value(), "custom");
}

#[test]
fn storage_error_texts() {
    assert_eq!(StorageError::Connection("refused".to_string()).to_string(), "Connection error: refused");
    assert_eq!(StorageError::Query("Insufficient funds".to_string()).to_string(), "Query error: Insufficient funds");
    assert_eq!(StorageError::NotFound.to_string(), "Not found");
}
