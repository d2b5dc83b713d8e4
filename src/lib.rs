//! An embedded, local-first memory store for AI applications: validated
//! records scoped to a user and a session, filtered and paginated recall,
//! rate limiting, and a decay engine that expires, evicts and compresses
//! cold memories.
//!
//! The modules hold the store's decisions; the storage file itself is driven
//! by the caller, which runs the SQL that `query` and `schema` compose and
//! applies the plans that `decay` computes.
pub mod batch;
pub mod compress;
pub mod decay;
pub mod health;
pub mod models;
pub mod monitor;
pub mod pagination;
pub mod query;
pub mod rank;
pub mod schema;
pub mod service;
pub mod session;
pub mod text;
pub mod util;
pub mod validation;
