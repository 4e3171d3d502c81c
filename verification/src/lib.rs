//! The per-index query and write engine of a distributed full-text search
//! node: admission of writes, bounded concurrent search, query planning,
//! change-log replay and the bookkeeping that binds them per index.


pub mod auth;
pub mod changelog;
pub mod context;
pub mod document;
pub mod error;
pub mod hashing;
pub mod index;
pub mod names;
pub mod query;
pub mod reader;
pub mod registry;
pub mod schema;
pub mod setup;
pub mod stores;
pub mod text;
pub mod writer;

