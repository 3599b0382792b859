//! Absorbing rows, and serving chunks for them.

use nereid::audio::codec::AudioCodecKind;
use nereid::corpus::chunk_builder::{
    build_placeholder_segment, build_segment_chunk, build_static_chunk, OpusPacket,
    CAPTURE_TIMELINE,
};
use nereid::corpus::config::CorpusConfig;
use nereid::corpus::digest::derive_id;
use nereid::corpus::error::{into_store_error, CorpusError};
use nereid::corpus::lance::{
    build_segment, is_placeable, LanceCorpusProvider, LoadStep, ScanRequest, SegmentLoad,
};
use nereid::corpus::provider::{absorb_rows, build_initial_state};
use nereid::corpus::replay::{derive_static_chunk_id, ChunkKind, ManifestEntry};
use nereid::corpus::row::CorpusChunkRow;
use nereid::store::error::{ChunkStoreError, CodecError};
use ogg::writing::{PacketWriteEndInfo, PacketWriter};
use std::io::Cursor;

fn synthetic_row(chunk_id_str: &str, sequence_no: i64, start_ns: i64) -> CorpusChunkRow {
    CorpusChunkRow {
        chunk_id_str: chunk_id_str.to_owned(),
        room: "room1".into(),
        participant_identity: "p1".into(),
        track_id: "trk1".into(),
        sequence_no,
        chunk_start_ns: start_ns,
        chunk_end_ns: start_ns + 20_000_000,
        s3_bucket: "bucket".into(),
        s3_key: format!("k/{chunk_id_str}.opus"),
        sha256: None,
        codec_audio: Some("opus".into()),
    }
}

fn test_config() -> CorpusConfig {
    CorpusConfig {
        lance_table_uri: "s3://test/index.lance".into(),
        s3_endpoint: String::new(),
        s3_region: "us-east-1".into(),
        s3_access_key: String::new(),
        s3_secret_key: String::new(),
        s3_force_path_style: true,
        application_id: "test_app".into(),
        recording_id: "test_rec".into(),
        max_initial_rows: None,
    }
}

fn ogg_bytes(packets: &[Vec<u8>]) -> Vec<u8> {
    let mut all = vec![b"OpusHead".to_vec(), b"OpusTags".to_vec()];
    all.extend(packets.iter().cloned());
    let mut bytes: Vec<u8> = Vec::new();
    {
        let mut writer = PacketWriter::new(Cursor::new(&mut bytes));
        for (i, payload) in all.iter().enumerate() {
            let end = if i + 1 == all.len() {
                PacketWriteEndInfo::EndStream
            } else {
                PacketWriteEndInfo::EndPage
            };
            writer.write_packet(payload.clone(), 1, end, 0).unwrap();
        }
    }
    bytes
}

#[test]
fn absorb_rows_extends_manifest_and_advances_watermark() {
    let config = test_config();
    let initial = vec![synthetic_row("c1", 1, 1_000_000_000)];
    let mut state = build_initial_state(&config, initial);

    // One static priming chunk + one segment chunk for the first row.
    assert_eq!(state.entries.len(), 2);
    assert_eq!(state.watermark_ns, Some(1_000_000_000));
    let rev_after_init = state.revision;

    // Absorbing a strictly-newer row should add exactly one segment
    // entry (no new entity, so no new static), and advance the watermark.
    let new_row = synthetic_row("c2", 2, 2_000_000_000);
    absorb_rows(&config, &mut state, vec![new_row]);

    assert_eq!(state.entries.len(), 3);
    assert_eq!(state.watermark_ns, Some(2_000_000_000));
    assert_eq!(state.revision, rev_after_init.wrapping_add(1));

    // A redundant absorb of the *same* row must not bump the revision
    // (live-edge polling occasionally re-sees rows after refresh races).
    absorb_rows(
        &config,
        &mut state,
        vec![synthetic_row("c2", 2, 2_000_000_000)],
    );
    assert_eq!(state.entries.len(), 3);
    assert_eq!(state.revision, rev_after_init.wrapping_add(1));
}

#[test]
fn an_index_without_rows_has_an_empty_manifest() {
    let state = build_initial_state(&test_config(), vec![]);
    assert_eq!(state.entries.len(), 0);
    assert_eq!(state.watermark_ns, None);
    assert_eq!(state.revision, 0);
    assert_eq!(state.manifest.num_chunks(), 0);
    assert_eq!(state.raw_manifest.rows.len(), 0);
    assert_eq!(state.manifest.store_id.application_id, "test_app");
    assert_eq!(state.manifest.store_id.recording_id, "test_rec");
}

#[test]
fn the_manifest_lists_what_the_entries_hold() {
    let mut other_room = synthetic_row("c3", 3, 500);
    other_room.room = "room2".into();
    let rows = vec![
        synthetic_row("c1", 1, 1_000),
        synthetic_row("c2", 2, 3_000),
        other_room.clone(),
    ];
    let state = build_initial_state(&test_config(), rows);
    // The rows are laid out by start time, each entity announced before its first row.
    let ids = vec![
        derive_static_chunk_id(&other_room.entity_path()),
        derive_id("c3"),
        derive_static_chunk_id(&synthetic_row("c1", 1, 0).entity_path()),
        derive_id("c1"),
        derive_id("c2"),
    ];
    assert_eq!(state.manifest.chunk_ids, ids);
    assert_eq!(state.entries.len(), 5);
    for (i, row) in state.raw_manifest.rows.iter().enumerate() {
        assert_eq!(row.chunk_id, ids[i]);
        assert_eq!(row.byte_offset, i as u64);
        assert_eq!(row.byte_size, 1);
        assert!(state.entries.contains_key(row.chunk_id));
    }
    assert!(state.raw_manifest.rows[0].is_static);
    assert!(!state.raw_manifest.rows[1].is_static);
    // Three components of each segment, from its start to its end.
    let ranges = &state.raw_manifest.rows[3].ranges;
    assert_eq!(ranges.len(), 3);
    for r in ranges {
        assert_eq!(r.timeline, CAPTURE_TIMELINE);
        assert_eq!((r.range.min, r.range.max), (1_000, 20_001_000));
    }
    assert_eq!(state.manifest.ranges.len(), 9);
}

#[test]
fn the_watermark_is_the_largest_new_start() {
    let config = test_config();
    let mut state = build_initial_state(
        &config,
        vec![synthetic_row("a", 1, 50), synthetic_row("b", 2, 10)],
    );
    assert_eq!(state.watermark_ns, Some(50));
    assert_eq!(state.revision, 1);
    // An older row is news, but does not move the watermark back.
    absorb_rows(&config, &mut state, vec![synthetic_row("c", 3, 20)]);
    assert_eq!(state.watermark_ns, Some(50));
    assert_eq!(state.revision, 2);
    // A known identifier with a later start is no news and does not move it on.
    absorb_rows(&config, &mut state, vec![synthetic_row("a", 1, 70)]);
    assert_eq!(state.watermark_ns, Some(50));
    assert_eq!(state.revision, 2);
    absorb_rows(&config, &mut state, vec![]);
    assert_eq!(state.revision, 2);
    assert!(state.entries.contains_key(derive_id("a")));
    assert!(state.entries.contains_key(derive_id("b")));
    assert!(state.entries.contains_key(derive_id("c")));
}

#[test]
fn a_chunk_is_listed_once() {
    let config = test_config();
    let mut state = build_initial_state(&config, vec![]);
    let start = 1_000_000_000;
    absorb_rows(
        &config,
        &mut state,
        vec![
            synthetic_row("c1", 1, start),
            synthetic_row("c2", 2, start),
            synthetic_row("c1", 1, start),
        ],
    );
    assert_eq!(state.entries.len(), 3);
    assert_eq!(state.manifest.num_chunks(), 3);
    assert_eq!(state.revision, 1);
    // A row that is there and comes again, after one with the same start.
    absorb_rows(&config, &mut state, vec![synthetic_row("c1", 1, start)]);
    assert_eq!(state.entries.len(), 3);
    assert_eq!(state.manifest.num_chunks(), 3);
    assert_eq!(state.revision, 1);
    // With another start time the earlier one stays.
    absorb_rows(&config, &mut state, vec![synthetic_row("c1", 1, start + 5)]);
    assert_eq!(state.manifest.num_chunks(), 3);
    assert_eq!(
        state.entries.get(derive_id("c1")).unwrap().row.chunk_start_ns,
        start
    );
}

#[test]
fn only_the_first_scan_is_cut() {
    let mut config = test_config();
    config.max_initial_rows = Some(1);
    let rows = vec![synthetic_row("b", 2, 20), synthetic_row("a", 1, 10)];
    let mut provider = LanceCorpusProvider::build(config, rows).ok().unwrap();
    assert_eq!(provider.manifest().num_chunks(), 2);
    assert_eq!(provider.next_scan(), ScanRequest::After(10));
    let more = vec![synthetic_row("b", 2, 20), synthetic_row("c", 3, 30)];
    assert!(provider.poll_for_new_rows(more).is_some());
    assert_eq!(provider.manifest().num_chunks(), 4);
    assert_eq!(provider.next_scan(), ScanRequest::After(30));
}

#[test]
fn the_revision_wraps() {
    let config = test_config();
    let mut state = build_initial_state(&config, vec![]);
    state.revision = u64::MAX;
    absorb_rows(&config, &mut state, vec![synthetic_row("a", 1, 1)]);
    assert_eq!(state.revision, 0);
}

#[test]
fn a_provider_polls_after_its_watermark() {
    let mut provider = LanceCorpusProvider::build(test_config(), vec![]).ok().unwrap();
    assert_eq!(provider.next_scan(), ScanRequest::All);
    assert_eq!(provider.revision(), 0);
    assert_eq!(provider.config().application_id, "test_app");
    assert!(provider.poll_for_new_rows(vec![]).is_none());

    let found = provider.poll_for_new_rows(vec![synthetic_row("a", 1, 100)]);
    let (manifest, raw) = found.unwrap();
    assert_eq!(manifest.num_chunks(), 2);
    assert_eq!(raw.rows.len(), 2);
    assert_eq!(provider.next_scan(), ScanRequest::After(100));
    assert_eq!(provider.revision(), 1);

    // Rows that were there before add nothing.
    assert!(provider.poll_for_new_rows(vec![synthetic_row("a", 1, 100)]).is_none());
    assert_eq!(provider.revision(), 1);
    assert_eq!(provider.manifest().num_chunks(), 2);
    assert_eq!(provider.raw_manifest().rows.len(), 2);
}

#[test]
fn polls_only_add_to_the_manifest() {
    let mut provider =
        LanceCorpusProvider::build(test_config(), vec![synthetic_row("b", 2, 200)]).ok().unwrap();
    let mut other_track = synthetic_row("c", 1, 50);
    other_track.track_id = "trk2".into();
    let polls = vec![
        vec![synthetic_row("a", 1, 100), other_track],
        vec![synthetic_row("b", 2, 200)],
        vec![synthetic_row("d", 4, 400), synthetic_row("a", 1, 100)],
    ];
    let mut known = provider.manifest().chunk_ids.clone();
    let mut latest = 200;
    for rows in polls {
        for row in &rows {
            latest = latest.max(row.chunk_start_ns);
        }
        provider.poll_for_new_rows(rows);
        let ids = provider.manifest().chunk_ids.clone();
        for id in &known {
            assert!(ids.contains(id));
        }
        // The next scan asks only for rows that are later than all that came so far.
        assert_eq!(provider.next_scan(), ScanRequest::After(latest));
        // Every announced entity has a segment.
        let raw = provider.raw_manifest();
        for announced in raw.rows.iter().filter(|row| row.is_static) {
            assert!(raw
                .rows
                .iter()
                .any(|row| !row.is_static && row.entity_path == announced.entity_path));
        }
        known = ids;
    }
    assert_eq!(known.len(), 6);
}

#[test]
fn packets_of_one_track_have_numbers_of_their_own() {
    let packet = |pts_ns: i64| OpusPacket {
        bytes: vec![1],
        pts_ns,
        duration_samples: 960,
    };
    let packets = || vec![packet(0), packet(20_000_000), packet(40_000_000)];
    let first = build_segment_chunk(&synthetic_row("a", 1, 1_000), 1, packets());
    let second = build_segment_chunk(&synthetic_row("b", 2, 60_001_000), 2, packets());
    let mut numbers: Vec<u64> = Vec::new();
    for row in first.rows.iter().chain(second.rows.iter()) {
        numbers.push(row.sequence_number.unwrap());
    }
    assert_eq!(
        numbers,
        vec![1_000_000, 1_000_001, 1_000_002, 2_000_000, 2_000_001, 2_000_002]
    );
    assert_eq!(first.timelines[0].times[0], 1_000);
    assert_eq!(second.timelines[0].times[0], 60_001_000);
}

#[test]
fn a_provider_needs_a_valid_configuration() {
    let mut config = test_config();
    config.application_id = String::new();
    match LanceCorpusProvider::build(config, vec![]) {
        Err(CorpusError::Config(message)) => {
            assert_eq!(message, "application_id must not be empty")
        }
        _ => panic!("unexpected"),
    }
}

#[test]
fn static_chunks_are_built_at_once() {
    let row = synthetic_row("a", 1, 100);
    let provider = LanceCorpusProvider::build(test_config(), vec![row.clone()]).ok().unwrap();
    let id = derive_static_chunk_id(&row.entity_path());
    match provider.start_load(id) {
        Ok(LoadStep::Ready(chunk)) => {
            assert_eq!(chunk.id, id);
            assert_eq!(chunk.entity_path, "/corpus/room1/p1/trk1/audio");
            assert!(chunk.timelines.is_empty());
            assert_eq!(chunk.rows.len(), 1);
            assert_eq!(chunk.rows[0].codec, Some(AudioCodecKind::Opus));
            assert_eq!(chunk.rows[0].sample_rate, Some(48_000));
            assert_eq!(chunk.rows[0].channel_count, Some(1));
        }
        other => panic!("unexpected: {other:?}"),
    }
    match provider.start_load(derive_id("a")) {
        Ok(LoadStep::Fetch(entry)) => {
            assert_eq!(entry.row.s3_key, "k/a.opus");
            assert_eq!(entry.chunk_id, derive_id("a"));
            assert_eq!(entry.kind, ChunkKind::Segment);
        }
        other => panic!("unexpected: {other:?}"),
    }
    match provider.start_load(7) {
        Err(ChunkStoreError::Codec(CodecError::ChunkNotInManifest { chunk_id })) => {
            assert_eq!(chunk_id, 7)
        }
        other => panic!("unexpected: {other:?}"),
    }
}

#[test]
fn segments_are_built_from_fetched_bytes() {
    let mut entry = ManifestEntry {
        row: synthetic_row("a", 3, 1_000),
        chunk_id: 9,
        kind: ChunkKind::Segment,
    };
    let bytes = ogg_bytes(&[vec![31 << 3, 1], vec![31 << 3, 2]]);
    match build_segment(&entry, &bytes) {
        SegmentLoad::Built(chunk) => {
            assert_eq!(chunk.id, 9);
            assert_eq!(chunk.timelines.len(), 1);
            assert_eq!(chunk.timelines[0].timeline, CAPTURE_TIMELINE);
            assert_eq!(chunk.timelines[0].times, vec![1_000, 20_001_000]);
            assert_eq!(chunk.rows[1].chunk, Some(vec![31 << 3, 2]));
            assert_eq!(chunk.rows[1].duration_samples, Some(960));
            assert_eq!(chunk.rows[0].sequence_number, Some(3_000_000));
            assert_eq!(chunk.rows[1].sequence_number, Some(3_000_001));
        }
        other => panic!("unexpected: {other:?}"),
    }
    entry.row.sha256 = Some("00".into());
    assert!(matches!(
        build_segment(&entry, &bytes),
        SegmentLoad::Failed(CorpusError::Sha256Mismatch { .. })
    ));
    entry.row.sha256 = None;
    let bad = ogg_bytes(&[vec![(31 << 3) | 3]]);
    assert!(matches!(
        build_segment(&entry, &bad),
        SegmentLoad::Failed(CorpusError::Internal(_))
    ));
    entry.row.sequence_no = i64::MAX;
    assert!(matches!(build_segment(&entry, &bytes), SegmentLoad::OutOfNumbers));
    entry.row.sequence_no = -1;
    assert!(matches!(build_segment(&entry, &bytes), SegmentLoad::OutOfNumbers));
}

#[test]
fn segment_times_saturate() {
    let mut row = synthetic_row("a", 0, i64::MAX - 5);
    row.chunk_end_ns = 0;
    let packets = vec![OpusPacket {
        bytes: vec![1],
        pts_ns: 10,
        duration_samples: 960,
    }];
    let chunk = build_segment_chunk(&row, 1, packets);
    assert_eq!(chunk.timelines[0].times, vec![i64::MAX]);
    let empty = build_segment_chunk(&row, 1, vec![]);
    assert!(empty.timelines.is_empty());
    assert!(empty.rows.is_empty());
}

#[test]
fn placeholders_span_their_segment() {
    let row = synthetic_row("a", 2, 1_000);
    let chunk = build_placeholder_segment(&row, 5);
    assert_eq!(chunk.timelines[0].times, vec![1_000, 20_001_000]);
    assert_eq!(chunk.rows[0].chunk, Some(vec![0]));
    assert_eq!(chunk.rows[0].duration_samples, Some(0));
    assert_eq!(chunk.rows[0].sequence_number, Some(2_000_000));
    assert_eq!(chunk.rows[1].sequence_number, Some(2_000_001));
    // A segment never ends before it has started.
    let mut backwards = row.clone();
    backwards.chunk_end_ns = 500;
    let chunk = build_placeholder_segment(&backwards, 5);
    assert_eq!(chunk.timelines[0].times, vec![1_000, 1_001]);
    assert_eq!(build_static_chunk(&row, 5).id, 5);
}

#[test]
fn placeable_rows() {
    assert!(is_placeable(&synthetic_row("a", 0, 0)));
    assert!(!is_placeable(&synthetic_row("a", -1, 0)));
    assert!(is_placeable(&synthetic_row("a", 18_446_744_073_709, 0)));
    assert!(!is_placeable(&synthetic_row("a", 18_446_744_073_710, 0)));
    let mut last = synthetic_row("a", 0, 0);
    last.chunk_start_ns = i64::MAX;
    assert!(!is_placeable(&last));
}

#[test]
fn errors_have_messages() {
    let cases: Vec<(CorpusError, &str)> = vec![
        (CorpusError::Lance("x".into()), "lance: x"),
        (CorpusError::ObjectStore("x".into()), "object_store: x"),
        (CorpusError::Arrow("x".into()), "arrow: x"),
        (CorpusError::Chunk("x".into()), "chunk: x"),
        (CorpusError::Codec(CodecError::Io("x".into())), "codec: x"),
        (
            CorpusError::ChunkStore(ChunkStoreError::Chunk("x".into())),
            "chunk_store: x",
        ),
        (CorpusError::Url("x".into()), "url parse: x"),
        (CorpusError::Config("x".into()), "config: x"),
        (
            CorpusError::MissingColumn("room"),
            "missing column `room` in lance scan output",
        ),
        (
            CorpusError::NullCell {
                row: 17,
                column: "chunk_id",
            },
            "row 17 column `chunk_id` is null",
        ),
        (
            CorpusError::UnknownChunk {
                chunk_id: "c".into(),
            },
            "chunk `c` not in manifest",
        ),
        (
            CorpusError::Sha256Mismatch {
                bucket: "b".into(),
                key: "k".into(),
                expected: "e".into(),
                actual: "a".into(),
            },
            "sha256 mismatch for b/k: expected=e actual=a",
        ),
        (CorpusError::Internal("x".into()), "internal: x"),
    ];
    for (error, text) in cases {
        assert_eq!(error.message(), text);
    }
}

#[test]
fn errors_are_handed_on_to_the_store() {
    assert!(matches!(
        into_store_error(CorpusError::Codec(CodecError::ChunkNotInManifest { chunk_id: 4 })),
        ChunkStoreError::Codec(CodecError::ChunkNotInManifest { chunk_id: 4 })
    ));
    assert!(matches!(
        into_store_error(CorpusError::Chunk("x".into())),
        ChunkStoreError::Chunk(m) if m == "x"
    ));
    assert!(matches!(
        into_store_error(CorpusError::ChunkStore(ChunkStoreError::Chunk("y".into()))),
        ChunkStoreError::Chunk(m) if m == "y"
    ));
    assert!(matches!(
        into_store_error(CorpusError::Internal("z".into())),
        ChunkStoreError::Codec(CodecError::Io(m)) if m == "internal: z"
    ));
}
