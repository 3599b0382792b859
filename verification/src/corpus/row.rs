//! Rows of the corpus index.

use crate::corpus::digest::{derive_id, text_id};
use crate::text::{replace_char, replaced};
use vstd::prelude::*;

verus! {

/// One published row of the index.
#[derive(Debug)]
pub struct CorpusChunkRow {
    pub chunk_id_str: String,
    pub room: String,
    pub participant_identity: String,
    pub track_id: String,
    pub sequence_no: i64,
    pub chunk_start_ns: i64,
    pub chunk_end_ns: i64,
    pub s3_bucket: String,
    pub s3_key: String,
    pub sha256: Option<String>,
    pub codec_audio: Option<String>,
}

fn clone_optional(text: &Option<String>) -> (r: Option<String>)
    ensures
        r == *text,
{
    match text {
        Some(t) => Some(t.clone()),
        None => None,
    }
}

impl Clone for CorpusChunkRow {
    fn clone(&self) -> (r: Self)
        ensures
            r == *self,
    {
        CorpusChunkRow {
            chunk_id_str: self.chunk_id_str.clone(),
            room: self.room.clone(),
            participant_identity: self.participant_identity.clone(),
            track_id: self.track_id.clone(),
            sequence_no: self.sequence_no,
            chunk_start_ns: self.chunk_start_ns,
            chunk_end_ns: self.chunk_end_ns,
            s3_bucket: self.s3_bucket.clone(),
            s3_key: self.s3_key.clone(),
            sha256: clone_optional(&self.sha256),
            codec_audio: clone_optional(&self.codec_audio),
        }
    }
}

/// One part of an entity path: slashes become underscores, and nothing becomes `unknown`.
pub open spec fn slug_text(value: Seq<char>) -> Seq<char> {
    if value.len() == 0 {
        "unknown"@
    } else {
        replaced(value, '/', '_')
    }
}

/// Makes `value` usable as one part of an entity path.
pub fn slug(value: &str) -> (r: String)
    ensures
        r@ == slug_text(value@),
{
    let s = replace_char(value, '/', '_');
    if s.as_str().is_empty() {
        "unknown".to_owned()
    } else {
        s
    }
}

impl CorpusChunkRow {
    /// The identifier of the chunk that the row stands for.
    pub open spec fn id(&self) -> u128 {
        text_id(self.chunk_id_str@)
    }

    /// The entity that the row belongs to: `/corpus/{room}/{participant}/{track}/audio`.
    pub open spec fn entity(&self) -> Seq<char> {
        "/corpus/"@ + slug_text(self.room@) + "/"@ + slug_text(self.participant_identity@) + "/"@
            + slug_text(self.track_id@) + "/audio"@
    }

    /// Stable identifier derived from the corpus chunk identifier.
    pub fn chunk_id(&self) -> (id: u128)
        ensures
            id == self.id(),
    {
        derive_id(self.chunk_id_str.as_str())
    }

    /// Path of the entity that the row belongs to.
    pub fn entity_path(&self) -> (path: String)
        ensures
            path@ == self.entity(),
    {
        let mut path = "/corpus/".to_owned();
        path.append(slug(self.room.as_str()).as_str());
        path.append("/");
        path.append(slug(self.participant_identity.as_str()).as_str());
        path.append("/");
        path.append(slug(self.track_id.as_str()).as_str());
        path.append("/audio");
        path
    }

    /// Path of the entity that carries the static fields: the same as that of the row.
    pub fn static_entity_path(&self) -> (path: String)
        ensures
            path@ == self.entity(),
    {
        self.entity_path()
    }
}

} // verus!
