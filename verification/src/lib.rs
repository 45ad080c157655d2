//! An in-memory chat store with tenant-scoped access and cursor-based
//! pagination of a chat's messages.

mod ids;
pub mod cursor;
pub mod model;
pub mod pagination;
pub mod query;
pub mod store;
pub mod service;
pub mod exchanges;
pub mod api_tags;
