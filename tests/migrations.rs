use brea_core::error::DbError;
use brea_core::migration::{find_migration, migrations, Migration, SchemaLedger};

#[test]
fn migration_sequence_is_ascending() {
    let defs = migrations();
    let versions: Vec<i32> = defs.iter().map(|m| m.version).collect();
    assert_eq!(versions, vec![1, 2, 3, 4, 5, 6, 7]);
    let m = Migration::new(9, "CREATE TABLE t (x)", "DROP TABLE t");
    assert_eq!(m.version, 9);
    assert_eq!(m.down, "DROP TABLE t");
    assert_eq!(find_migration(&defs, 3).unwrap().version, 3);
    assert!(defs[0].up.starts_with("CREATE TABLE IF NOT EXISTS properties"));
    assert_eq!(defs[0].down, "DROP TABLE IF EXISTS properties");
    assert!(find_migration(&defs, 8).is_none());
}

#[test]
fn rollback_test_rollback_to_v1() {
    let defs = migrations();
    let mut ledger = SchemaLedger::new();
    let ran = ledger.apply_all(&defs);
    assert_eq!(ran, vec![1, 2, 3, 4, 5, 6, 7]);
    assert_eq!(ledger.list_applied().len(), 7, "Expected 7 migrations to be applied");
    let reverted = ledger.rollback_to(&defs, 1).unwrap();
    assert_eq!(reverted, vec![7, 6, 5, 4, 3, 2]);
    let applied = ledger.list_applied();
    assert_eq!(applied.len(), 1, "Expected only version 1 to be applied");
    assert_eq!(applied[0], 1, "Expected version 1 to be applied");
    let ran = ledger.apply_all(&defs);
    assert_eq!(ran, vec![2, 3, 4, 5, 6, 7]);
    assert_eq!(ledger.list_applied().len(), 7, "Expected 7 migrations to be applied again");
}

#[test]
fn test_rollback_all() {
    let defs = migrations();
    let mut ledger = SchemaLedger::new();
    ledger.apply_all(&defs);
    let reverted = ledger.rollback_all(&defs);
    assert_eq!(reverted, vec![7, 6, 5, 4, 3, 2, 1]);
    assert!(ledger.list_applied().is_empty());
    assert_eq!(ledger.current_version(), 0);
}

#[test]
fn round_trip_matches_fresh_apply() {
    let defs = migrations();
    let mut fresh = SchemaLedger::new();
    fresh.apply_all(&defs);
    let mut cycled = SchemaLedger::new();
    cycled.apply_all(&defs);
    cycled.rollback_to(&defs, 1).unwrap();
    cycled.apply_all(&defs);
    assert_eq!(cycled.list_applied(), fresh.list_applied());
    assert_eq!(cycled.current_version(), 7);
}

#[test]
fn rollback_to_unapplied_version_changes_nothing() {
    let defs = migrations();
    let mut ledger = SchemaLedger::from_applied(vec![1, 2, 3], &defs).unwrap();
    assert_eq!(ledger.rollback_to(&defs, 5), Err(DbError::NotFound));
    assert_eq!(ledger.list_applied(), vec![1, 2, 3]);
    assert_eq!(ledger.rollback_to(&defs, 42), Err(DbError::SchemaMismatch(42)));
    assert_eq!(ledger.rollback_to(&defs, -1), Err(DbError::SchemaMismatch(-1)));
    assert_eq!(ledger.rollback_to(&defs, 0), Err(DbError::SchemaMismatch(0)));
    assert_eq!(ledger.list_applied(), vec![1, 2, 3]);
}

#[test]
fn pending_and_single_steps() {
    let defs = migrations();
    let mut ledger = SchemaLedger::from_applied(vec![1, 2], &defs).unwrap();
    assert_eq!(ledger.pending(&defs), vec![3, 4, 5, 6, 7]);
    assert_eq!(ledger.record_applied(&defs, 4), Err(DbError::SchemaMismatch(4)));
    assert_eq!(ledger.record_applied(&defs, 3), Ok(()));
    assert_eq!(ledger.current_version(), 3);
    assert_eq!(ledger.record_reverted(&defs, 2), Err(DbError::NotFound));
    assert_eq!(ledger.record_reverted(&defs, 3), Ok(()));
    assert_eq!(ledger.list_applied(), vec![1, 2]);
}

#[test]
fn ledger_with_gap_is_refused() {
    let defs = migrations();
    assert!(matches!(SchemaLedger::from_applied(vec![1, 3], &defs), Err(DbError::InvalidLedger)));
    assert!(matches!(SchemaLedger::from_applied(vec![2], &defs), Err(DbError::InvalidLedger)));
    assert!(matches!(
        SchemaLedger::from_applied(vec![1, 2, 3, 4, 5, 6, 7, 8], &defs),
        Err(DbError::InvalidLedger)
    ));
    assert!(SchemaLedger::from_applied(vec![], &defs).is_ok());
}
