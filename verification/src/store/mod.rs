//! The chunk store: chunks known up front and loaded on demand.

pub mod chunk_provider;
pub mod error;
pub mod laws;
pub mod lazy;
pub mod lazy_store;
pub mod slice;
pub mod store_laws;
pub mod timeline_index;
