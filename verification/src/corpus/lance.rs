//! The provider that serves the corpus as one recording.

use crate::chunk::Chunk;
use crate::corpus::chunk_builder::{
    build_segment_chunk, build_static_chunk, numbers_fit, packet_times, placeable, segment_chunk,
    static_chunk, OpusPacketView,
};
use crate::corpus::config::CorpusConfig;
use crate::corpus::digest::sha256;
use crate::corpus::error::CorpusError;
use crate::corpus::opus_demux::{
    audio_payloads, demux_ogg_opus, demuxed, demuxed_packet, ogg_stream, packets_play_in_order,
    samples_before,
};
use crate::corpus::provider::{
    absorb_rows, absorbed, any_new, build_initial_state, no_rows_yet, store_of, ProviderState,
    ProviderView,
};
use crate::corpus::provider_laws::revision_counts_new_rows;
use crate::corpus::replay::{ChunkKind, ManifestEntry};
use crate::corpus::row::CorpusChunkRow;
use crate::corpus::s3::{as_promised, check_object};
use crate::corpus::scan::{considered, initial_rows};
use crate::id_map::lookup;
use crate::manifest::{RawRrdManifest, RrdManifest};
use crate::shared::share;
use crate::store::error::{ChunkStoreError, CodecError};
use crate::text::hex;
use std::sync::Arc;
use vstd::prelude::*;

verus! {

/// Which rows a poll has to look at.
#[derive(Debug, Clone, Copy, PartialEq, Eq, Structural)]
pub enum ScanRequest {
    /// Every row of the index.
    All,
    /// The rows that start after a time.
    After(i64),
}

/// What is left to do to load a chunk.
#[derive(Debug)]
pub enum LoadStep {
    /// Nothing: the chunk is there.
    Ready(Chunk),
    /// The audio of this row has to be fetched.
    Fetch(ManifestEntry),
}

/// What came of building a segment.
#[derive(Debug)]
pub enum SegmentLoad {
    /// The chunk is built.
    Built(Chunk),
    /// The audio is not what it should be.
    Failed(CorpusError),
    /// The segment has more packets than there are sequence numbers left.
    OutOfNumbers,
}

/// Serves the rows of the corpus index as chunks.
pub struct LanceCorpusProvider {
    config: CorpusConfig,
    state: ProviderState,
}

/// Tells whether a row can be taken into the manifest: its sequence numbers and its end can be
/// told.
pub fn is_placeable(row: &CorpusChunkRow) -> (r: bool)
    ensures
        r == placeable(*row),
{
    row.sequence_no >= 0 && row.sequence_no as u64 <= (u64::MAX - 1) / 1_000_000
        && row.chunk_start_ns < i64::MAX
}

/// Builds the chunk of a segment from the bytes of its object.
///
/// The bytes are checked against the promised digest before they are taken apart.
pub fn build_segment(entry: &ManifestEntry, bytes: &[u8]) -> (r: SegmentLoad)
    ensures
        !as_promised(bytes@, entry.row.sha256) ==> (r matches SegmentLoad::Failed(
            CorpusError::Sha256Mismatch { bucket, key, expected, actual },
        ) && bucket@ == entry.row.s3_bucket@ && key@ == entry.row.s3_key@ && (
        entry.row.sha256 matches Some(digest) && expected@ == digest@) && actual@ == hex(
            sha256(bytes@),
        )),
        as_promised(bytes@, entry.row.sha256) ==> match demuxed(
            ogg_stream(bytes@).0,
            ogg_stream(bytes@).1,
        ) {
            Err(message) => r matches SegmentLoad::Failed(CorpusError::Internal(text)) && text@
                == message,
            Ok(packets) => if numbers_fit(entry.row, packets.len()) {
                r matches SegmentLoad::Built(chunk) && chunk@ == segment_chunk(
                    entry.row,
                    entry.chunk_id,
                    packets,
                ) && chunk@.wf()
            } else {
                r is OutOfNumbers
            },
        },
{
    let row = &entry.row;
    match check_object(row.s3_bucket.as_str(), row.s3_key.as_str(), bytes, &row.sha256) {
        Ok(_) => {},
        Err(e) => return SegmentLoad::Failed(e),
    }
    match demux_ogg_opus(bytes) {
        Ok(packets) => {
            let n: u64 = packets.len() as u64;
            if n == 0 {
                return SegmentLoad::Built(build_segment_chunk(row, entry.chunk_id, packets));
            }
            if row.sequence_no < 0 {
                return SegmentLoad::OutOfNumbers;
            }
            let first: u128 = row.sequence_no as u128 * 1_000_000;
            if first + (n - 1) as u128 > u64::MAX as u128 {
                return SegmentLoad::OutOfNumbers;
            }
            SegmentLoad::Built(build_segment_chunk(row, entry.chunk_id, packets))
        },
        Err(e) => SegmentLoad::Failed(e),
    }
}

/// A segment that is built from a stream starts when its row says, and its packets play in the
/// order in which they come.
pub proof fn segments_play_from_their_start(
    row: CorpusChunkRow,
    payloads: Seq<Seq<u8>>,
    packets: Seq<OpusPacketView>,
    i: int,
    j: int,
)
    requires
        demuxed(payloads, None) == Ok::<Seq<OpusPacketView>, Seq<char>>(packets),
        0 <= i <= j < packets.len(),
        samples_before(audio_payloads(payloads), j as nat) * 1_000_000_000 <= i64::MAX,
    ensures
        packet_times(row, packets)[0] == row.chunk_start_ns,
        packet_times(row, packets)[i] <= packet_times(row, packets)[j],
{
    let audio = audio_payloads(payloads);
    assert(packets =~= Seq::new(audio.len(), |k: int| demuxed_packet(audio, k)));
    packets_play_in_order(audio, i as nat, j as nat);
    assert(samples_before(audio, 0) == 0);
    assert(packets[0] == demuxed_packet(audio, 0));
    assert(packets[i] == demuxed_packet(audio, i));
    assert(packets[j] == demuxed_packet(audio, j));
}

impl LanceCorpusProvider {
    /// What the provider knows.
    pub closed spec fn known(&self) -> ProviderView {
        self.state@
    }

    /// The configuration that the provider was built from.
    pub closed spec fn configured(&self) -> CorpusConfig {
        self.config
    }

    /// The state is consistent.
    pub closed spec fn wf(&self) -> bool {
        self.state.entries.wf() && self.state@.wf()
    }

    /// Builds a provider from the rows of a first scan, of which it considers no more than the
    /// configuration allows.
    pub fn build(config: CorpusConfig, rows: Vec<CorpusChunkRow>) -> (r: Result<Self, CorpusError>)
        requires
            forall|i: int|
                0 <= i < considered(rows@, config.max_initial_rows).len() ==> placeable(
                    #[trigger] considered(rows@, config.max_initial_rows)[i],
                ),
            2 * considered(rows@, config.max_initial_rows).len() <= u64::MAX,
        ensures
            match r {
                Ok(provider) => {
                    &&& config.missing_setting() is None
                    &&& provider.wf()
                    &&& provider.known().wf()
                    &&& provider.configured() == config
                    &&& provider.known() == (if considered(
                        rows@,
                        config.max_initial_rows,
                    ).len() == 0 {
                        no_rows_yet(store_of(config))
                    } else {
                        absorbed(
                            no_rows_yet(store_of(config)),
                            store_of(config),
                            considered(rows@, config.max_initial_rows),
                        )
                    })
                },
                Err(e) => e matches CorpusError::Config(message) && config.missing_setting()
                    == Some(message@),
            },
    {
        match config.validate() {
            Ok(_) => {},
            Err(e) => return Err(e),
        }
        let rows = initial_rows(rows, config.max_initial_rows);
        let state = build_initial_state(&config, rows);
        Ok(LanceCorpusProvider { config, state })
    }

    /// The configuration that the provider was built from.
    pub fn config(&self) -> (r: &CorpusConfig)
        ensures
            *r == self.configured(),
    {
        &self.config
    }

    /// The revision, which counts the polls that brought something new.
    pub fn revision(&self) -> (r: u64)
        ensures
            r == self.known().revision,
    {
        self.state.revision
    }

    /// Which rows the next poll has to look at: those after the watermark, or all of them where
    /// nothing has been absorbed.
    pub fn next_scan(&self) -> (r: ScanRequest)
        ensures
            r == match self.known().watermark_ns {
                Some(after) => ScanRequest::After(after),
                None => ScanRequest::All,
            },
    {
        match self.state.watermark_ns {
            Some(after) => ScanRequest::After(after),
            None => ScanRequest::All,
        }
    }

    /// Takes in the rows that a poll found. Returns the new manifest when at least one row was
    /// added, and nothing otherwise.
    pub fn poll_for_new_rows(&mut self, new_rows: Vec<CorpusChunkRow>) -> (r: Option<
        (Arc<RrdManifest>, Arc<RawRrdManifest>),
    >)
        requires
            old(self).wf(),
            forall|i: int| 0 <= i < new_rows@.len() ==> placeable(#[trigger] new_rows@[i]),
            2 * (old(self).known().entries.len() + new_rows@.len()) <= u64::MAX,
        ensures
            final(self).wf(),
            final(self).known().wf(),
            final(self).configured() == old(self).configured(),
            final(self).known() == (if new_rows@.len() == 0 {
                old(self).known()
            } else {
                absorbed(old(self).known(), store_of(old(self).configured()), new_rows@)
            }),
            r is Some <==> any_new(old(self).known().entries, new_rows@, new_rows@.len()),
            r matches Some((manifest, raw_manifest)) ==> {
                &&& manifest@ == final(self).known().manifest
                &&& raw_manifest@ == final(self).known().raw_manifest
            },
    {
        if new_rows.is_empty() {
            return None;
        }
        proof {
            revision_counts_new_rows(self.state@, store_of(self.config), new_rows@);
        }
        let before: u64 = self.state.revision;
        absorb_rows(&self.config, &mut self.state, new_rows);
        if self.state.revision == before {
            return None;
        }
        Some((share(&self.state.manifest), share(&self.state.raw_manifest)))
    }

    /// The manifest of everything absorbed so far.
    pub fn manifest(&self) -> (r: Arc<RrdManifest>)
        ensures
            r@ == self.known().manifest,
    {
        share(&self.state.manifest)
    }

    /// The raw manifest of everything absorbed so far.
    pub fn raw_manifest(&self) -> (r: Arc<RawRrdManifest>)
        ensures
            r@ == self.known().raw_manifest,
    {
        share(&self.state.raw_manifest)
    }

    /// Starts to load a chunk: a chunk that announces an entity is built at once, for a segment
    /// the audio has to be fetched, and an identifier without an entry is an error.
    pub fn start_load(&self, chunk_id: u128) -> (r: Result<LoadStep, ChunkStoreError>)
        requires
            self.wf(),
        ensures
            match lookup(self.known().entries, chunk_id) {
                None => r == Err::<LoadStep, ChunkStoreError>(
                    ChunkStoreError::Codec(CodecError::ChunkNotInManifest { chunk_id }),
                ),
                Some(entry) => match entry.kind {
                    ChunkKind::Static => r matches Ok(LoadStep::Ready(chunk)) && chunk@
                        == static_chunk(entry.row, entry.chunk_id) && chunk@.wf(),
                    ChunkKind::Segment => r == Ok::<LoadStep, ChunkStoreError>(
                        LoadStep::Fetch(entry),
                    ),
                },
            },
    {
        match self.state.entries.get(chunk_id) {
            None => Err(ChunkStoreError::Codec(CodecError::ChunkNotInManifest { chunk_id })),
            Some(entry) => match entry.kind {
                ChunkKind::Static => Ok(
                    LoadStep::Ready(build_static_chunk(&entry.row, entry.chunk_id)),
                ),
                ChunkKind::Segment => Ok(LoadStep::Fetch(entry.clone())),
            },
        }
    }
}

} // verus!
