//! Where a lazy store gets its chunks from.

use crate::chunk::Chunk;
use crate::manifest::{RawRrdManifest, RrdManifest};
use crate::store::error::ChunkStoreError;
use std::sync::Arc;
use vstd::prelude::*;

verus! {

/// A backing source for a lazy store: a manifest of all known chunks, and a way to materialize
/// chunks on demand.
pub trait ChunkProvider: Send + Sync {
    /// The manifest, prepared for lookups.
    fn manifest(&self) -> (r: Arc<RrdManifest>);

    /// The manifest as the source wrote it down.
    fn raw_manifest(&self) -> (r: Arc<RawRrdManifest>);

    /// Materializes chunks. An identifier that the manifest does not list is an error.
    fn load_chunks(&self, chunk_ids: &[u128]) -> (r: Result<Vec<Arc<Chunk>>, ChunkStoreError>);
}

} // verus!
