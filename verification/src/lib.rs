//! Audio corpus and playback core.

pub mod arith;
pub mod audio;
pub mod cache;
pub mod catalog;
pub mod chunk;
pub mod corpus;
pub mod id_map;
pub mod manifest;
pub mod manifest_laws;
pub mod select;
pub mod server;
mod shared;
pub mod store;
pub mod text;
pub mod text_laws;
pub mod text_order;
pub mod time;
pub mod view;
