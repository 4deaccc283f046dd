//! A personal catalog of seed-packet records: the record model, lookups and
//! filters over a catalog, a transactional store with read and write scopes,
//! a whole-catalog snapshot store, and a reversible text codec for snapshots.
pub mod error;
pub mod plant;
pub mod seed;
pub mod query;
pub mod schema;
pub mod text;
pub mod codec;
pub mod store;
pub mod snapshot;
pub mod service;
