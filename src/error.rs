use vstd::prelude::*;

verus! {

/// Failures reported by the store and its ledger.
#[derive(Clone, Debug, PartialEq, Eq)]
pub enum DbError {
    /// A listing id or a migration version that the store does not hold.
    NotFound,
    /// A unique key taken by another row outside the upsert path.
    Conflict,
    /// A persisted status text outside the closed set of statuses.
    InvalidStatus(String),
    /// A persisted timestamp text that does not decode.
    InvalidTimestamp(String),
    /// The ledger read back from storage is not a contiguous prefix of the definitions.
    InvalidLedger,
    /// The connection, pool or transport failed; safe to retry.
    Unavailable,
    /// A rollback target with no migration definition.
    SchemaMismatch(i32),
}

} // verus!
