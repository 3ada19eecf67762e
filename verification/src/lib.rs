//! A verified quote store: an in-memory id-to-quote document with CRUD
//! operations, together with the column-width and wrapping logic used to
//! render the collection as a table.

pub mod config;
pub mod error;
pub mod format;
pub mod laws;
pub mod quote;
pub mod repository;
pub mod store;
