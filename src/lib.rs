//! Persistence rules for real-estate listings collected by a crawler: the
//! schema ledger and its migrations, the catalog store's upsert semantics, the
//! price history with its retention policy, and the lifecycle reconciler that
//! infers sold listings from a crawl pass.

pub mod catalog;
pub mod error;
pub mod history;
pub mod listing_source;
pub mod migration;
pub mod property;
pub mod property_type;
pub mod query;
pub mod reconcile;
pub mod status;
pub mod text;
pub mod time;
