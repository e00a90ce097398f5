//! Paging, loader keys, and the ballad-index filters behind the schema.
pub mod connection;
pub mod loaders;
pub mod query;
pub mod types;
