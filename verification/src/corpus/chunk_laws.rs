//! What the chunks of the corpus hold, told by the rows and packets that they are built from.

use crate::audio::codec::AudioCodecKind;
use crate::chunk::Chunk;
use crate::corpus::chunk_builder::{
    build_placeholder_segment, build_segment_chunk, build_static_chunk, packet_views, OpusPacket,
};
use crate::corpus::row::{slug, CorpusChunkRow};
use vstd::prelude::*;

verus! {

/// The chunk of a segment has one row for each packet, in order, with the bytes and the duration
/// of the packet. It plays as long after the start of the segment as the packet says, as far as
/// that can be told, on one timeline.
pub proof fn segments_carry_their_packets(
    row: &CorpusChunkRow,
    id: u128,
    packets: Vec<OpusPacket>,
    chunk: Chunk,
    k: int,
)
    requires
        call_ensures(build_segment_chunk, (row, id, packets), chunk),
        0 <= k < packets@.len(),
        packets@[k].duration_samples >= 0,
    ensures
        chunk.id == id,
        chunk@.rows.len() == packets@.len(),
        chunk@.rows[k].chunk == Some(packets@[k].bytes@),
        chunk@.rows[k].duration_samples is Some,
        chunk@.rows[k].duration_samples->0 == packets@[k].duration_samples,
        chunk@.timelines.len() == 1,
        chunk@.timelines[0].timeline == "capture_time"@,
        chunk@.timelines[0].times.len() == packets@.len(),
        i64::MIN <= row.chunk_start_ns + packets@[k].pts_ns <= i64::MAX
            ==> chunk@.timelines[0].times[k] == row.chunk_start_ns + packets@[k].pts_ns,
        chunk@.rows[k].codec is None,
        chunk@.rows[k].seekable is None,
        chunk@.rows[k].discontinuity is None,
{
    assert(packet_views(packets@)[k] == packets@[k]@);
}

/// A segment without packets has neither rows nor times.
pub proof fn segments_without_packets_are_empty(
    row: &CorpusChunkRow,
    id: u128,
    packets: Vec<OpusPacket>,
    chunk: Chunk,
)
    requires
        call_ensures(build_segment_chunk, (row, id, packets), chunk),
        packets@.len() == 0,
    ensures
        chunk@.rows.len() == 0,
        chunk@.timelines.len() == 0,
{
}

/// Packets are numbered one after the other, within a segment and on to the packets of the next
/// segment, of which each has a million numbers.
pub proof fn packets_are_numbered_in_order(
    row: &CorpusChunkRow,
    id: u128,
    packets: Vec<OpusPacket>,
    chunk: Chunk,
    k: int,
)
    requires
        call_ensures(build_segment_chunk, (row, id, packets), chunk),
        0 <= k < packets@.len(),
        row.sequence_no >= 0,
        row.sequence_no * 1_000_000 + packets@.len() <= u64::MAX,
    ensures
        chunk@.rows[k].sequence_number is Some,
        k == 0 ==> chunk@.rows[k].sequence_number->0 == row.sequence_no * 1_000_000,
        k > 0 ==> chunk@.rows[k - 1].sequence_number is Some
            && chunk@.rows[k].sequence_number->0 == chunk@.rows[k - 1].sequence_number->0 + 1,
{
}

/// All chunks of a row belong to its entity.
pub proof fn chunks_belong_to_the_entity_of_their_row(
    row: &CorpusChunkRow,
    id: u128,
    packets: Vec<OpusPacket>,
    segment: Chunk,
    placeholder: Chunk,
    announcement: Chunk,
    path: String,
)
    requires
        call_ensures(build_segment_chunk, (row, id, packets), segment),
        call_ensures(build_placeholder_segment, (row, id), placeholder),
        call_ensures(build_static_chunk, (row, id), announcement),
        call_ensures(CorpusChunkRow::entity_path, (row,), path),
    ensures
        segment@.entity_path == path@,
        placeholder@.entity_path == path@,
        announcement@.entity_path == path@,
{
}

/// An entity is announced as Opus at 48 kHz with one channel, in one row at no time.
pub proof fn entities_are_announced_as_opus(row: &CorpusChunkRow, id: u128, chunk: Chunk)
    requires
        call_ensures(build_static_chunk, (row, id), chunk),
    ensures
        chunk.id == id,
        chunk@.timelines.len() == 0,
        chunk@.rows.len() == 1,
        chunk@.rows[0].codec == Some(AudioCodecKind::Opus),
        chunk@.rows[0].sample_rate == Some(48_000u32),
        chunk@.rows[0].channel_count == Some(1u16),
        chunk@.rows[0].chunk is None,
        chunk@.rows[0].duration_samples is None,
        chunk@.rows[0].sequence_number is None,
{
}

/// A placeholder lies at the start and at the end of its segment. A segment that does not end
/// after its start ends one nanosecond after it.
pub proof fn placeholders_span_their_segment(row: &CorpusChunkRow, id: u128, chunk: Chunk)
    requires
        call_ensures(build_placeholder_segment, (row, id), chunk),
        row.chunk_start_ns < i64::MAX,
    ensures
        chunk.id == id,
        chunk@.rows.len() == 2,
        chunk@.timelines.len() == 1,
        chunk@.timelines[0].timeline == "capture_time"@,
        chunk@.timelines[0].times.len() == 2,
        chunk@.timelines[0].times[0] == row.chunk_start_ns,
        row.chunk_end_ns > row.chunk_start_ns ==> chunk@.timelines[0].times[1]
            == row.chunk_end_ns,
        row.chunk_end_ns <= row.chunk_start_ns ==> chunk@.timelines[0].times[1]
            == row.chunk_start_ns + 1,
        chunk@.rows[0].chunk is Some,
        chunk@.rows[0].chunk->0.len() == 1,
        chunk@.rows[1].chunk is Some,
        chunk@.rows[1].chunk->0.len() == 1,
{
}

/// A part of an entity path is never empty and has no slash. It is as long as the text that it
/// stands for, of which each slash has become an underscore and all else is kept.
pub proof fn slugs_are_one_part_of_a_path(value: &str, r: String)
    requires
        call_ensures(slug, (value,), r),
    ensures
        r@.len() > 0,
        value@.len() == 0 ==> r@ == "unknown"@,
        value@.len() > 0 ==> r@.len() == value@.len(),
        forall|i: int| 0 <= i < r@.len() ==> #[trigger] r@[i] != '/',
        value@.len() > 0 ==> forall|i: int|
            0 <= i < value@.len() ==> #[trigger] r@[i] == (if value@[i] == '/' {
                '_'
            } else {
                value@[i]
            }),
{
    reveal_strlit("unknown");
    if value@.len() == 0 {
        assert forall|i: int| 0 <= i < r@.len() implies #[trigger] r@[i] != '/' by {
            assert(r@ == "unknown"@);
        }
    }
}

/// The path of an entity is made of the parts for room, participant and track, in that order.
pub proof fn paths_are_made_of_their_parts(
    row: &CorpusChunkRow,
    path: String,
    room: &str,
    room_part: String,
    participant: &str,
    participant_part: String,
    track: &str,
    track_part: String,
)
    requires
        call_ensures(CorpusChunkRow::entity_path, (row,), path),
        room@ == row.room@,
        participant@ == row.participant_identity@,
        track@ == row.track_id@,
        call_ensures(slug, (room,), room_part),
        call_ensures(slug, (participant,), participant_part),
        call_ensures(slug, (track,), track_part),
    ensures
        path@ == "/corpus/"@ + room_part@ + "/"@ + participant_part@ + "/"@ + track_part@
            + "/audio"@,
{
}

} // verus!
