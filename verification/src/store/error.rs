//! Errors of the chunk store.

use vstd::prelude::*;

verus! {

/// What can go wrong with a manifest.
#[derive(Debug)]
pub enum CodecError {
    /// A chunk is asked for that the manifest does not list.
    ChunkNotInManifest { chunk_id: u128 },
    /// Reading failed.
    Io(String),
}

/// What can go wrong in the chunk store.
#[derive(Debug)]
pub enum ChunkStoreError {
    /// The manifest is at fault.
    Codec(CodecError),
    /// A chunk is at fault.
    Chunk(String),
}

impl CodecError {
    /// The message for people.
    pub open spec fn text(&self) -> Seq<char> {
        match *self {
            CodecError::ChunkNotInManifest { .. } => "chunk not in manifest"@,
            CodecError::Io(message) => message@,
        }
    }

    /// The message for people.
    pub fn message(&self) -> (r: String)
        ensures
            r@ == self.text(),
    {
        match self {
            CodecError::ChunkNotInManifest { .. } => "chunk not in manifest".to_owned(),
            CodecError::Io(message) => message.clone(),
        }
    }
}

impl ChunkStoreError {
    /// The message for people.
    pub open spec fn text(&self) -> Seq<char> {
        match *self {
            ChunkStoreError::Codec(e) => e.text(),
            ChunkStoreError::Chunk(message) => message@,
        }
    }

    /// The message for people.
    pub fn message(&self) -> (r: String)
        ensures
            r@ == self.text(),
    {
        match self {
            ChunkStoreError::Codec(e) => e.message(),
            ChunkStoreError::Chunk(message) => message.clone(),
        }
    }
}

} // verus!
