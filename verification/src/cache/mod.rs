//! Caches that keep audio ready from frame to frame.

pub mod asset;
pub mod stream;
