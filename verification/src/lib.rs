//! Imports the cumulative usage counters that a Hermes Agent keeps per session and model,
//! and turns them into non-negative counter deltas and bounded signed cost adjustments.

pub mod cost;
pub mod cost_laws;
pub mod counter;
pub mod digest;
pub mod digest_laws;
pub mod discover;
pub mod discover_laws;
pub mod encoding_laws;
pub mod error;
pub mod failure_laws;
pub mod filter_laws;
pub mod import;
pub mod import_laws;
pub mod ledger_laws;
pub mod print_laws;
pub mod query;
pub mod query_laws;
pub mod reader;
pub mod reader_laws;
pub mod record_laws;
pub mod snapshot;
pub mod source;
pub mod source_laws;
pub mod store;
pub mod sync;
pub mod sync_laws;
pub mod text;
pub mod text_laws;
pub mod value;
pub mod value_laws;
pub mod view_laws;
