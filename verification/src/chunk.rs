//! Chunks of logged audio data.

use crate::audio::codec::AudioCodecKind;
use vstd::prelude::*;

verus! {

/// The components that can be logged for an audio stream.
#[derive(Debug, Clone, Copy, PartialEq, Eq, Structural)]
pub enum AudioComponent {
    Codec,
    SampleRate,
    ChannelCount,
    Chunk,
    DurationSamples,
    SequenceNumber,
    Seekable,
    Discontinuity,
}

/// Every component, in the order in which a manifest lists them.
pub open spec fn all_components() -> Seq<AudioComponent> {
    seq![
        AudioComponent::Codec,
        AudioComponent::SampleRate,
        AudioComponent::ChannelCount,
        AudioComponent::Chunk,
        AudioComponent::DurationSamples,
        AudioComponent::SequenceNumber,
        AudioComponent::Seekable,
        AudioComponent::Discontinuity,
    ]
}

/// Every component, in the order in which a manifest lists them.
pub fn component_list() -> (r: Vec<AudioComponent>)
    ensures
        r@ == all_components(),
{
    vec![
        AudioComponent::Codec,
        AudioComponent::SampleRate,
        AudioComponent::ChannelCount,
        AudioComponent::Chunk,
        AudioComponent::DurationSamples,
        AudioComponent::SequenceNumber,
        AudioComponent::Seekable,
        AudioComponent::Discontinuity,
    ]
}

/// The components logged in one row of a chunk.
#[derive(Debug)]
pub struct AudioFields {
    pub codec: Option<AudioCodecKind>,
    pub sample_rate: Option<u32>,
    pub channel_count: Option<u16>,
    pub chunk: Option<Vec<u8>>,
    pub duration_samples: Option<u64>,
    pub sequence_number: Option<u64>,
    pub seekable: Option<bool>,
    pub discontinuity: Option<bool>,
}

/// What a row holds.
#[verifier::ext_equal]
pub struct AudioFieldsView {
    pub codec: Option<AudioCodecKind>,
    pub sample_rate: Option<u32>,
    pub channel_count: Option<u16>,
    pub chunk: Option<Seq<u8>>,
    pub duration_samples: Option<u64>,
    pub sequence_number: Option<u64>,
    pub seekable: Option<bool>,
    pub discontinuity: Option<bool>,
}

impl AudioFieldsView {
    /// Whether the row has the component.
    pub open spec fn has(self, component: AudioComponent) -> bool {
        match component {
            AudioComponent::Codec => self.codec is Some,
            AudioComponent::SampleRate => self.sample_rate is Some,
            AudioComponent::ChannelCount => self.channel_count is Some,
            AudioComponent::Chunk => self.chunk is Some,
            AudioComponent::DurationSamples => self.duration_samples is Some,
            AudioComponent::SequenceNumber => self.sequence_number is Some,
            AudioComponent::Seekable => self.seekable is Some,
            AudioComponent::Discontinuity => self.discontinuity is Some,
        }
    }
}

/// A row with a codec, a sample rate and a channel count.
pub open spec fn stream_fields(
    codec: AudioCodecKind,
    sample_rate: u32,
    channel_count: u16,
) -> AudioFieldsView {
    AudioFieldsView {
        codec: Some(codec),
        sample_rate: Some(sample_rate),
        channel_count: Some(channel_count),
        chunk: None,
        duration_samples: None,
        sequence_number: None,
        seekable: None,
        discontinuity: None,
    }
}

/// A row with an encoded chunk, its duration and its sequence number.
pub open spec fn packet_fields(
    bytes: Seq<u8>,
    duration_samples: u64,
    sequence_number: u64,
) -> AudioFieldsView {
    AudioFieldsView {
        codec: None,
        sample_rate: None,
        channel_count: None,
        chunk: Some(bytes),
        duration_samples: Some(duration_samples),
        sequence_number: Some(sequence_number),
        seekable: None,
        discontinuity: None,
    }
}

impl View for AudioFields {
    type V = AudioFieldsView;

    open spec fn view(&self) -> AudioFieldsView {
        AudioFieldsView {
            codec: self.codec,
            sample_rate: self.sample_rate,
            channel_count: self.channel_count,
            chunk: match self.chunk {
                Some(bytes) => Some(bytes@),
                None => None,
            },
            duration_samples: self.duration_samples,
            sequence_number: self.sequence_number,
            seekable: self.seekable,
            discontinuity: self.discontinuity,
        }
    }
}

/// A copy of `bytes`.
pub fn copy_bytes(bytes: &Vec<u8>) -> (r: Vec<u8>)
    ensures
        r@ == bytes@,
{
    let r = bytes.clone();
    assert(r@ =~= bytes@);
    r
}

impl AudioFields {
    /// A row that describes a stream.
    pub fn stream(codec: AudioCodecKind, sample_rate: u32, channel_count: u16) -> (r: Self)
        ensures
            r@ == stream_fields(codec, sample_rate, channel_count),
    {
        AudioFields {
            codec: Some(codec),
            sample_rate: Some(sample_rate),
            channel_count: Some(channel_count),
            chunk: None,
            duration_samples: None,
            sequence_number: None,
            seekable: None,
            discontinuity: None,
        }
    }

    /// A row that carries one encoded chunk.
    pub fn packet(bytes: Vec<u8>, duration_samples: u64, sequence_number: u64) -> (r: Self)
        ensures
            r@ == packet_fields(bytes@, duration_samples, sequence_number),
    {
        AudioFields {
            codec: None,
            sample_rate: None,
            channel_count: None,
            chunk: Some(bytes),
            duration_samples: Some(duration_samples),
            sequence_number: Some(sequence_number),
            seekable: None,
            discontinuity: None,
        }
    }

    /// Whether the row has the component.
    pub fn has(&self, component: AudioComponent) -> (r: bool)
        ensures
            r == self@.has(component),
    {
        match component {
            AudioComponent::Codec => self.codec.is_some(),
            AudioComponent::SampleRate => self.sample_rate.is_some(),
            AudioComponent::ChannelCount => self.channel_count.is_some(),
            AudioComponent::Chunk => self.chunk.is_some(),
            AudioComponent::DurationSamples => self.duration_samples.is_some(),
            AudioComponent::SequenceNumber => self.sequence_number.is_some(),
            AudioComponent::Seekable => self.seekable.is_some(),
            AudioComponent::Discontinuity => self.discontinuity.is_some(),
        }
    }
}

impl Clone for AudioFields {
    fn clone(&self) -> (r: Self)
        ensures
            r@ == self@,
    {
        AudioFields {
            codec: self.codec,
            sample_rate: self.sample_rate,
            channel_count: self.channel_count,
            chunk: match &self.chunk {
                Some(bytes) => Some(copy_bytes(bytes)),
                None => None,
            },
            duration_samples: self.duration_samples,
            sequence_number: self.sequence_number,
            seekable: self.seekable,
            discontinuity: self.discontinuity,
        }
    }
}

/// The times of a chunk's rows on one timeline.
#[derive(Debug)]
pub struct TimeColumn {
    pub timeline: String,
    pub times: Vec<i64>,
}

/// What a time column holds.
#[verifier::ext_equal]
pub struct TimeColumnView {
    pub timeline: Seq<char>,
    pub times: Seq<i64>,
}

impl View for TimeColumn {
    type V = TimeColumnView;

    open spec fn view(&self) -> TimeColumnView {
        TimeColumnView { timeline: self.timeline@, times: self.times@ }
    }
}

/// Rows logged for one entity. A chunk without a time column is static.
#[derive(Debug)]
pub struct Chunk {
    pub id: u128,
    pub entity_path: String,
    pub timelines: Vec<TimeColumn>,
    pub rows: Vec<AudioFields>,
}

/// What a chunk holds.
#[verifier::ext_equal]
pub struct ChunkView {
    pub id: u128,
    pub entity_path: Seq<char>,
    pub timelines: Seq<TimeColumnView>,
    pub rows: Seq<AudioFieldsView>,
}

impl ChunkView {
    /// Every time column has one time per row.
    pub open spec fn wf(self) -> bool {
        forall|i: int|
            0 <= i < self.timelines.len() ==> (#[trigger] self.timelines[i]).times.len()
                == self.rows.len()
    }
}

/// The views of `rows`.
pub open spec fn row_views(rows: Seq<AudioFields>) -> Seq<AudioFieldsView> {
    rows.map_values(|r: AudioFields| r@)
}

/// The views of `columns`.
pub open spec fn column_views(columns: Seq<TimeColumn>) -> Seq<TimeColumnView> {
    columns.map_values(|c: TimeColumn| c@)
}

impl View for Chunk {
    type V = ChunkView;

    open spec fn view(&self) -> ChunkView {
        ChunkView {
            id: self.id,
            entity_path: self.entity_path@,
            timelines: column_views(self.timelines@),
            rows: row_views(self.rows@),
        }
    }
}

} // verus!
