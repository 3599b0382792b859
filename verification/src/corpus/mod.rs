//! The audio corpus: rows of the index, chunks built from them and the provider that serves them.

pub mod batch;
pub mod chunk_builder;
pub mod chunk_laws;
pub mod config;
pub mod digest;
pub mod error;
pub mod history;
pub mod lance;
pub mod opus_demux;
pub mod order;
pub mod provider;
pub mod provider_laws;
pub mod replay;
pub mod row;
pub mod row_laws;
pub mod s3;
pub mod scan;
pub mod serving_laws;
pub mod settings_laws;
