//! Data-access logic for boards and the cards they hold: the entities,
//! the row filters, the status summary, the error taxonomy and the pool
//! settings, with a verified in-memory model of the two tables that fixes
//! what each query selects and each command changes. Nothing here persists
//! data or talks to the store.
//!
//! `models` holds the entities and the status summary, `text` the name
//! matching used by the filters, `query` the row filters and the recency
//! window, `error` the error taxonomy, `pool` the connection pool settings,
//! `rows` facts about filtered sequences, `db` the model of the tables with
//! every query and command over them, and `laws` what holds across those operations.

pub mod models;
pub mod text;
pub mod error;
pub mod query;
pub mod rows;
pub mod db;
pub mod laws;
pub mod pool;
