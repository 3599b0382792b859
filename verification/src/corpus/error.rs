//! Errors of the corpus.

use crate::store::error::{ChunkStoreError, CodecError};
use crate::text::{decimal, decimal_u64, join2};
use vstd::prelude::*;

verus! {

/// What can go wrong while the corpus is read.
#[derive(Debug)]
pub enum CorpusError {
    /// Reading the index table failed.
    Lance(String),
    /// Fetching an object failed.
    ObjectStore(String),
    /// Reading columns failed.
    Arrow(String),
    /// Building a chunk failed.
    Chunk(String),
    /// Reading or writing a manifest failed.
    Codec(CodecError),
    /// The chunk store failed.
    ChunkStore(ChunkStoreError),
    /// A location is not well-formed.
    Url(String),
    /// The configuration is unusable.
    Config(String),
    /// A column is absent from the scan output, or has another type.
    MissingColumn(&'static str),
    /// A required cell is null.
    NullCell { row: usize, column: &'static str },
    /// A chunk is asked for that the manifest does not list.
    UnknownChunk { chunk_id: String },
    /// The bytes of an object do not have the digest that the index promises.
    Sha256Mismatch { bucket: String, key: String, expected: String, actual: String },
    /// The data is not what it should be.
    Internal(String),
}

impl CorpusError {
    /// The message for people.
    pub open spec fn text(&self) -> Seq<char> {
        match *self {
            CorpusError::Lance(e) => "lance: "@ + e@,
            CorpusError::ObjectStore(e) => "object_store: "@ + e@,
            CorpusError::Arrow(e) => "arrow: "@ + e@,
            CorpusError::Chunk(e) => "chunk: "@ + e@,
            CorpusError::Codec(e) => "codec: "@ + e.text(),
            CorpusError::ChunkStore(e) => "chunk_store: "@ + e.text(),
            CorpusError::Url(e) => "url parse: "@ + e@,
            CorpusError::Config(e) => "config: "@ + e@,
            CorpusError::MissingColumn(name) => "missing column `"@ + name@
                + "` in lance scan output"@,
            CorpusError::NullCell { row, column } => "row "@ + decimal(row as nat) + " column `"@
                + column@ + "` is null"@,
            CorpusError::UnknownChunk { chunk_id } => "chunk `"@ + chunk_id@
                + "` not in manifest"@,
            CorpusError::Sha256Mismatch { bucket, key, expected, actual } => "sha256 mismatch for "@
                + bucket@ + "/"@ + key@ + ": expected="@ + expected@ + " actual="@ + actual@,
            CorpusError::Internal(e) => "internal: "@ + e@,
        }
    }

    /// The message for people.
    pub fn message(&self) -> (r: String)
        ensures
            r@ == self.text(),
    {
        match self {
            CorpusError::Lance(e) => join2("lance: ", e.as_str()),
            CorpusError::ObjectStore(e) => join2("object_store: ", e.as_str()),
            CorpusError::Arrow(e) => join2("arrow: ", e.as_str()),
            CorpusError::Chunk(e) => join2("chunk: ", e.as_str()),
            CorpusError::Codec(e) => join2("codec: ", e.message().as_str()),
            CorpusError::ChunkStore(e) => join2("chunk_store: ", e.message().as_str()),
            CorpusError::Url(e) => join2("url parse: ", e.as_str()),
            CorpusError::Config(e) => join2("config: ", e.as_str()),
            CorpusError::MissingColumn(name) => {
                let mut out = join2("missing column `", name);
                out.append("` in lance scan output");
                out
            },
            CorpusError::NullCell { row, column } => {
                let mut out = join2("row ", decimal_u64(*row as u64).as_str());
                out.append(" column `");
                out.append(column);
                out.append("` is null");
                out
            },
            CorpusError::UnknownChunk { chunk_id } => {
                let mut out = join2("chunk `", chunk_id.as_str());
                out.append("` not in manifest");
                out
            },
            CorpusError::Sha256Mismatch { bucket, key, expected, actual } => {
                let mut out = join2("sha256 mismatch for ", bucket.as_str());
                out.append("/");
                out.append(key.as_str());
                out.append(": expected=");
                out.append(expected.as_str());
                out.append(" actual=");
                out.append(actual.as_str());
                out
            },
            CorpusError::Internal(e) => join2("internal: ", e.as_str()),
        }
    }
}

/// What a corpus error becomes for the chunk store: manifest, chunk and store errors are handed
/// on, any other becomes an input error with its message.
pub open spec fn store_error(error: CorpusError, r: ChunkStoreError) -> bool {
    match error {
        CorpusError::Codec(e) => r == ChunkStoreError::Codec(e),
        CorpusError::Chunk(e) => r == ChunkStoreError::Chunk(e),
        CorpusError::ChunkStore(e) => r == e,
        _ => r matches ChunkStoreError::Codec(CodecError::Io(message)) && message@
            == error.text(),
    }
}

/// Hands a corpus error on to the chunk store.
pub fn into_store_error(error: CorpusError) -> (r: ChunkStoreError)
    ensures
        store_error(error, r),
{
    match error {
        CorpusError::Codec(e) => ChunkStoreError::Codec(e),
        CorpusError::Chunk(e) => ChunkStoreError::Chunk(e),
        CorpusError::ChunkStore(e) => e,
        other => ChunkStoreError::Codec(CodecError::Io(other.message())),
    }
}

} // verus!
