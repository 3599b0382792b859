//! Chunks made from corpus rows and their Opus packets.

use crate::arith::{clamp_i64, saturating_add_i64};
use crate::audio::codec::AudioCodecKind;
use crate::chunk::{
    copy_bytes, packet_fields, row_views, stream_fields, AudioComponent, AudioFields,
    AudioFieldsView, Chunk, ChunkView, TimeColumn, TimeColumnView,
};
use crate::corpus::row::CorpusChunkRow;
use crate::manifest::{
    chunk_ranges, column_ranges, component_span, manifest_row, ComponentRangeView,
};
use crate::time::AbsoluteTimeRange;
use vstd::prelude::*;

verus! {

/// Timeline used for absolute wall-clock playback of the corpus.
pub const CAPTURE_TIMELINE: &'static str = "capture_time";

/// One Opus packet of a segment.
#[derive(Debug)]
pub struct OpusPacket {
    /// Raw packet bytes, without container framing.
    pub bytes: Vec<u8>,
    /// Presentation time, in nanoseconds from the start of the segment.
    pub pts_ns: i64,
    /// Number of samples per channel that the packet decodes to.
    pub duration_samples: i64,
}

/// What a packet holds.
#[verifier::ext_equal]
pub struct OpusPacketView {
    pub bytes: Seq<u8>,
    pub pts_ns: i64,
    pub duration_samples: i64,
}

impl View for OpusPacket {
    type V = OpusPacketView;

    open spec fn view(&self) -> OpusPacketView {
        OpusPacketView {
            bytes: self.bytes@,
            pts_ns: self.pts_ns,
            duration_samples: self.duration_samples,
        }
    }
}

impl Clone for OpusPacket {
    fn clone(&self) -> (r: Self)
        ensures
            r@ == self@,
    {
        OpusPacket {
            bytes: copy_bytes(&self.bytes),
            pts_ns: self.pts_ns,
            duration_samples: self.duration_samples,
        }
    }
}

/// The views of `packets`.
pub open spec fn packet_views(packets: Seq<OpusPacket>) -> Seq<OpusPacketView> {
    packets.map_values(|p: OpusPacket| p@)
}

/// The chunk that announces an audio entity: Opus, 48 kHz, one channel.
pub open spec fn static_chunk(row: CorpusChunkRow, id: u128) -> ChunkView {
    ChunkView {
        id,
        entity_path: row.entity(),
        timelines: Seq::empty(),
        rows: seq![stream_fields(AudioCodecKind::Opus, 48_000, 1)],
    }
}

/// Builds the chunk that announces the entity of `row`.
pub fn build_static_chunk(row: &CorpusChunkRow, chunk_id: u128) -> (chunk: Chunk)
    ensures
        chunk@ == static_chunk(*row, chunk_id),
        chunk@.wf(),
{
    let mut rows: Vec<AudioFields> = Vec::new();
    rows.push(AudioFields::stream(AudioCodecKind::Opus, 48_000, 1));
    let chunk = Chunk {
        id: chunk_id,
        entity_path: row.static_entity_path(),
        timelines: Vec::new(),
        rows,
    };
    assert(chunk@ =~= static_chunk(*row, chunk_id)) by {
        assert(row_views(rows@) =~= static_chunk(*row, chunk_id).rows);
        assert(chunk@.timelines =~= Seq::<TimeColumnView>::empty());
    }
    chunk
}

/// The sequence number of packet `i` of a segment: each segment has a million of them.
pub open spec fn packet_number(row: CorpusChunkRow, i: int) -> int {
    row.sequence_no * 1_000_000 + i
}

/// Whether the sequence numbers of the first `n` packets of the segment can be told.
pub open spec fn numbers_fit(row: CorpusChunkRow, n: nat) -> bool {
    n > 0 ==> row.sequence_no >= 0 && packet_number(row, n - 1) <= u64::MAX
}

/// A sequence number tells the segment and the packet, as long as segments keep to their million.
pub proof fn packet_numbers_identify_packets(
    a: CorpusChunkRow,
    i: int,
    b: CorpusChunkRow,
    j: int,
)
    requires
        0 <= i < 1_000_000,
        0 <= j < 1_000_000,
        packet_number(a, i) == packet_number(b, j),
    ensures
        a.sequence_no == b.sequence_no,
        i == j,
{
}

/// When packet `i` plays, in absolute time.
pub open spec fn packet_times(row: CorpusChunkRow, packets: Seq<OpusPacketView>) -> Seq<i64> {
    Seq::new(packets.len(), |i: int| clamp_i64(row.chunk_start_ns + packets[i].pts_ns))
}

/// The rows of a segment, one per packet.
pub open spec fn packet_rows(row: CorpusChunkRow, packets: Seq<OpusPacketView>) -> Seq<
    AudioFieldsView,
> {
    Seq::new(
        packets.len(),
        |i: int|
            packet_fields(
                packets[i].bytes,
                packets[i].duration_samples as u64,
                packet_number(row, i) as u64,
            ),
    )
}

/// The chunk of one segment: one row per packet, at the time at which the packet plays. Without
/// packets there is nothing to put on the timeline.
pub open spec fn segment_chunk(
    row: CorpusChunkRow,
    id: u128,
    packets: Seq<OpusPacketView>,
) -> ChunkView {
    ChunkView {
        id,
        entity_path: row.entity(),
        timelines: if packets.len() == 0 {
            Seq::empty()
        } else {
            seq![
                TimeColumnView { timeline: CAPTURE_TIMELINE@, times: packet_times(row, packets) },
            ]
        },
        rows: packet_rows(row, packets),
    }
}

/// Builds the chunk of one segment from its packets, which are in playing order.
pub fn build_segment_chunk(
    row: &CorpusChunkRow,
    chunk_id: u128,
    packets: Vec<OpusPacket>,
) -> (chunk: Chunk)
    requires
        numbers_fit(*row, packets@.len()),
    ensures
        chunk@ == segment_chunk(*row, chunk_id, packet_views(packets@)),
        chunk@.wf(),
{
    let ghost views = packet_views(packets@);
    let mut times: Vec<i64> = Vec::new();
    let mut rows: Vec<AudioFields> = Vec::new();
    let mut i: usize = 0;
    while i < packets.len()
        invariant
            i <= packets@.len(),
            views == packet_views(packets@),
            numbers_fit(*row, packets@.len()),
            times@ == packet_times(*row, views).take(i as int),
            row_views(rows@) == packet_rows(*row, views).take(i as int),
        decreases packets@.len() - i,
    {
        let packet = &packets[i];
        assert(views[i as int] == packet@);
        let pts_ns: i64 = saturating_add_i64(row.chunk_start_ns, packet.pts_ns);
        let number: u64 = row.sequence_no as u64 * 1_000_000 + i as u64;
        let fields = AudioFields::packet(
            copy_bytes(&packet.bytes),
            packet.duration_samples as u64,
            number,
        );
        let ghost so_far = rows@;
        times.push(pts_ns);
        rows.push(fields);
        assert(row_views(rows@) =~= row_views(so_far).push(fields@));
        i = i + 1;
        assert(times@ =~= packet_times(*row, views).take(i as int));
        assert(row_views(rows@) =~= packet_rows(*row, views).take(i as int));
    }
    assert(packet_times(*row, views).take(i as int) =~= packet_times(*row, views));
    assert(packet_rows(*row, views).take(i as int) =~= packet_rows(*row, views));
    let mut timelines: Vec<TimeColumn> = Vec::new();
    if !packets.is_empty() {
        timelines.push(TimeColumn { timeline: CAPTURE_TIMELINE.to_owned(), times });
    }
    let chunk = Chunk { id: chunk_id, entity_path: row.entity_path(), timelines, rows };
    assert(chunk@.timelines =~= segment_chunk(*row, chunk_id, views).timelines);
    chunk
}

/// Whether the placeholder of the row's segment can be built.
pub open spec fn placeable(row: CorpusChunkRow) -> bool {
    &&& numbers_fit(row, 2)
    &&& row.chunk_start_ns < i64::MAX
}

/// When a segment ends, which is after it started.
pub open spec fn segment_end(row: CorpusChunkRow) -> i64 {
    if row.chunk_end_ns > row.chunk_start_ns {
        row.chunk_end_ns
    } else {
        (row.chunk_start_ns + 1) as i64
    }
}

/// The chunk that stands for a segment whose packets are not fetched yet: two rows with a
/// one-byte payload, at the start and at the end of the segment.
pub open spec fn placeholder_chunk(row: CorpusChunkRow, id: u128) -> ChunkView {
    ChunkView {
        id,
        entity_path: row.entity(),
        timelines: seq![
            TimeColumnView {
                timeline: CAPTURE_TIMELINE@,
                times: seq![row.chunk_start_ns, segment_end(row)],
            },
        ],
        rows: seq![
            packet_fields(seq![0u8], 0, packet_number(row, 0) as u64),
            packet_fields(seq![0u8], 0, packet_number(row, 1) as u64),
        ],
    }
}

fn placeholder_bytes() -> (r: Vec<u8>)
    ensures
        r@ == seq![0u8],
{
    let mut bytes: Vec<u8> = Vec::new();
    bytes.push(0);
    assert(bytes@ =~= seq![0u8]);
    bytes
}

/// Builds the placeholder of a segment, from which a manifest learns the entity and the time
/// span.
pub fn build_placeholder_segment(row: &CorpusChunkRow, chunk_id: u128) -> (chunk: Chunk)
    requires
        placeable(*row),
    ensures
        chunk@ == placeholder_chunk(*row, chunk_id),
        chunk@.wf(),
{
    let first: u64 = row.sequence_no as u64 * 1_000_000;
    let end: i64 = if row.chunk_end_ns > row.chunk_start_ns + 1 {
        row.chunk_end_ns
    } else {
        row.chunk_start_ns + 1
    };
    let mut times: Vec<i64> = Vec::new();
    times.push(row.chunk_start_ns);
    times.push(end);
    let mut rows: Vec<AudioFields> = Vec::new();
    rows.push(AudioFields::packet(placeholder_bytes(), 0, first));
    rows.push(AudioFields::packet(placeholder_bytes(), 0, first + 1));
    let mut timelines: Vec<TimeColumn> = Vec::new();
    timelines.push(TimeColumn { timeline: CAPTURE_TIMELINE.to_owned(), times });
    let chunk = Chunk { id: chunk_id, entity_path: row.entity_path(), timelines, rows };
    let ghost wanted = placeholder_chunk(*row, chunk_id);
    assert(times@ =~= wanted.timelines[0].times);
    assert(chunk@.rows =~= wanted.rows);
    assert(chunk@.timelines =~= wanted.timelines);
    chunk
}

/// A manifest learns from a placeholder that each of its components lasts from the start of the
/// segment to its end.
pub proof fn placeholder_covers_segment(row: CorpusChunkRow, id: u128, offset: u64, size: u64)
    requires
        placeable(row),
    ensures
        manifest_row(placeholder_chunk(row, id), offset, size).ranges == seq![
            ComponentRangeView {
                timeline: CAPTURE_TIMELINE@,
                component: AudioComponent::Chunk,
                range: AbsoluteTimeRange { min: row.chunk_start_ns, max: segment_end(row) },
            },
            ComponentRangeView {
                timeline: CAPTURE_TIMELINE@,
                component: AudioComponent::DurationSamples,
                range: AbsoluteTimeRange { min: row.chunk_start_ns, max: segment_end(row) },
            },
            ComponentRangeView {
                timeline: CAPTURE_TIMELINE@,
                component: AudioComponent::SequenceNumber,
                range: AbsoluteTimeRange { min: row.chunk_start_ns, max: segment_end(row) },
            },
        ],
{
    let chunk = placeholder_chunk(row, id);
    let column = chunk.timelines[0];
    let range = AbsoluteTimeRange { min: row.chunk_start_ns, max: segment_end(row) };
    assert forall|component: AudioComponent| #[trigger]
        component_span(column.times, chunk.rows, component, 2) == (if chunk.rows[0].has(
            component,
        ) {
            Some(range)
        } else {
            None
        }) by {
        reveal_with_fuel(component_span, 3);
    }
    reveal_with_fuel(column_ranges, 9);
    reveal_with_fuel(chunk_ranges, 2);
    assert(manifest_row(chunk, offset, size).ranges =~= seq![
        ComponentRangeView {
            timeline: CAPTURE_TIMELINE@,
            component: AudioComponent::Chunk,
            range,
        },
        ComponentRangeView {
            timeline: CAPTURE_TIMELINE@,
            component: AudioComponent::DurationSamples,
            range,
        },
        ComponentRangeView {
            timeline: CAPTURE_TIMELINE@,
            component: AudioComponent::SequenceNumber,
            range,
        },
    ]);
}

} // verus!
