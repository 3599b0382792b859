//! The audio view and its caches.

use nereid::audio::codec::AudioCodecKind;
use nereid::audio::error::AudioError;
use nereid::audio::output::{output_format, SinkFormat, SupportedFormats};
use nereid::audio::player::{TickStart, TransportState};
use nereid::cache::asset::{AudioAssetCache, AudioAssetLoadError, BlobKey};
use nereid::cache::stream::{
    samples_to_ns, AudioStreamCache, AudioStreamProcessingError, ComponentLookup,
    StreamComponents, StreamRow,
};
use nereid::text_order::{text_order, TextOrder};
use nereid::view::labels::{
    config_label, counted, decoded_amount, fault_labels, span_label, DecodedAmount, Tone,
};
use nereid::view::playback::{
    samples_to_drain, sink_ring_frames, AudioViewState, ViewTransport,
};
use nereid::view::suggest::{suggest_audio_view_for_each_entity, AudioView, VisualizerEntities};
use nereid::view::summary::{
    build_summary, resolve_static_config, AudioStreamConfig, AudioStreamVisualizerSystem,
    ConfigParts, SummaryRow,
};

fn texts(list: &[&str]) -> Vec<String> {
    list.iter().map(|s| s.to_string()).collect()
}

#[test]
fn the_first_stream_is_heard() {
    let mut state = AudioViewState::new();
    let plan = state.drive("/a", true);
    assert_eq!(plan.state, TransportState::Playing);
    assert!(plan.owns_sink);
    assert!(plan.open_sink);
    state.sink_opened(Some(SinkFormat { sample_rate: 48_000, channels: 2 }));
    let plan = state.drive("/b", true);
    assert!(!plan.owns_sink);
    assert!(!plan.open_sink);
    let plan = state.drive("/a", false);
    assert!(plan.owns_sink);
    assert!(!plan.open_sink);
    assert_eq!(plan.state, TransportState::Paused);
}

#[test]
fn muted_views_pause() {
    let mut state = AudioViewState::new();
    assert_eq!(state.transport, ViewTransport::default());
    state.transport = ViewTransport::Muted;
    assert_eq!(state.drive("/a", true).state, TransportState::Paused);
    assert_eq!(state.drive("/a", false).state, TransportState::Paused);
}

#[test]
fn a_missing_owner_is_forgotten() {
    let mut state = AudioViewState::new();
    assert!(!state.forget_owner_if_missing(&texts(&[])));
    state.drive("/a", true);
    assert!(!state.forget_owner_if_missing(&texts(&["/b", "/a"])));
    assert!(!state.drive("/b", true).owns_sink);
    // Without an open sink there is nothing to flush.
    assert!(!state.forget_owner_if_missing(&texts(&["/b"])));
    assert!(state.drive("/b", true).owns_sink);
    state.sink_opened(Some(SinkFormat { sample_rate: 48_000, channels: 2 }));
    assert!(state.forget_owner_if_missing(&texts(&[])));
    assert_eq!(state.sink_owner, None);
    assert!(state.open_sink.is_some());
    state.sink_opened(None);
    assert!(state.drive("/c", true).open_sink);
}

#[test]
fn a_frame_drains_up_to_an_eighth_of_a_second() {
    let sink = SinkFormat { sample_rate: 48_000, channels: 2 };
    assert_eq!(samples_to_drain(sink, 0), 0);
    assert_eq!(samples_to_drain(sink, 100), 200);
    assert_eq!(samples_to_drain(sink, 6_000), 12_000);
    assert_eq!(samples_to_drain(sink, 100_000), 12_000);
    assert_eq!(sink_ring_frames(0), 1);
    assert_eq!(sink_ring_frames(48_000), 48_000);
}

fn summary_row(time: i64, sequence: Option<u64>) -> SummaryRow {
    SummaryRow {
        time,
        duration_samples: Some(480),
        discontinuity: Some(false),
        sequence_number: sequence,
    }
}

#[test]
fn summaries_count_faults() {
    let mut rows = vec![
        summary_row(0, Some(4)),
        summary_row(20, Some(5)),
        summary_row(10, None),
        summary_row(10, Some(7)),
        summary_row(40, Some(8)),
    ];
    rows[1].discontinuity = Some(true);
    rows[2].discontinuity = None;
    let summary = build_summary("/a".into(), None, &rows);
    assert_eq!(summary.entity_path, "/a");
    assert_eq!(summary.segment_count, 5);
    assert_eq!(summary.total_samples, Some(2_400));
    assert_eq!(summary.out_of_order, 1);
    assert_eq!(summary.discontinuities, 1);
    assert_eq!(summary.sequence_gaps, Some(1));
    assert_eq!(summary.pts_range, Some((0, 40)));
    rows[3].duration_samples = None;
    assert_eq!(build_summary("/a".into(), None, &rows).total_samples, None);
}

#[test]
fn summaries_of_nothing_and_of_extremes() {
    let empty = build_summary("/a".into(), None, &vec![]);
    assert_eq!(empty.segment_count, 0);
    assert_eq!(empty.total_samples, Some(0));
    assert_eq!(empty.sequence_gaps, None);
    assert_eq!(empty.pts_range, None);
    let mut rows = vec![summary_row(0, Some(u64::MAX)), summary_row(1, Some(u64::MAX))];
    rows[0].duration_samples = Some(u64::MAX);
    let summary = build_summary("/a".into(), None, &rows);
    assert_eq!(summary.total_samples, Some(u64::MAX));
    assert_eq!(summary.sequence_gaps, Some(1));
    let unnumbered = build_summary("/a".into(), None, &vec![summary_row(0, None)]);
    assert_eq!(unnumbered.sequence_gaps, None);
}

#[test]
fn summaries_are_put_into_words() {
    let config = AudioStreamConfig {
        codec: AudioCodecKind::Opus,
        sample_rate: 48_000,
        channel_count: 2,
    };
    let mut summary = build_summary("/a".into(), Some(config), &vec![]);
    assert_eq!(config_label(summary.config).text, "Opus · 48000 Hz · 2 ch");
    assert_eq!(config_label(summary.config).tone, Tone::Plain);
    assert_eq!(
        config_label(None).text,
        "Missing required config (codec / sample_rate / channel_count)."
    );
    assert_eq!(config_label(None).tone, Tone::Warning);
    assert_eq!(counted(summary.segment_count, " segments"), "0 segments");
    assert!(fault_labels(&summary).is_empty());
    let span = span_label(&summary).unwrap();
    assert_eq!(span.text, "No chunks logged on the current timeline.");
    assert_eq!(span.tone, Tone::Weak);
    assert_eq!(
        decoded_amount(&summary),
        DecodedAmount::Time { samples: 0, sample_rate: 48_000 }
    );

    summary.segment_count = 12;
    summary.pts_range = Some((-5, 70));
    assert_eq!(span_label(&summary).unwrap().text, "pts range: -5 .. 70");
    summary.pts_range = None;
    assert!(span_label(&summary).is_none());
    summary.discontinuities = 3;
    summary.out_of_order = 1;
    summary.sequence_gaps = Some(10);
    let faults = fault_labels(&summary);
    let words: Vec<&str> = faults.iter().map(|l| l.text.as_str()).collect();
    assert_eq!(words, vec!["3 discontinuities", "1 out-of-order", "10 sequence gaps"]);
    assert!(faults.iter().all(|l| l.tone == Tone::Warning));
    summary.discontinuities = 0;
    summary.sequence_gaps = Some(0);
    let faults = fault_labels(&summary);
    assert_eq!(faults.len(), 2);
    assert_eq!(faults[1].text, "sequence contiguous");
    assert_eq!(faults[1].tone, Tone::Plain);

    summary.config = Some(AudioStreamConfig { sample_rate: 0, ..config });
    assert_eq!(decoded_amount(&summary), DecodedAmount::Samples(0));
    summary.config = None;
    assert_eq!(decoded_amount(&summary), DecodedAmount::Samples(0));
    summary.total_samples = None;
    assert_eq!(decoded_amount(&summary), DecodedAmount::Unknown);
}

#[test]
fn unsupported_hints_give_way_to_the_default() {
    let default = SinkFormat { sample_rate: 44_100, channels: 2 };
    let supported = vec![
        SupportedFormats { channels: 1, min_sample_rate: 8_000, max_sample_rate: 16_000 },
        SupportedFormats { channels: 2, min_sample_rate: 44_100, max_sample_rate: 48_000 },
    ];
    assert_eq!(
        output_format(Some(48_000), Some(2), default, &supported),
        SinkFormat { sample_rate: 48_000, channels: 2 }
    );
    assert_eq!(
        output_format(Some(16_000), Some(1), default, &supported),
        SinkFormat { sample_rate: 16_000, channels: 1 }
    );
    // Neither a rate nor a channel count alone is enough.
    assert_eq!(output_format(Some(48_000), Some(1), default, &supported), default);
    assert_eq!(output_format(Some(16_000), None, default, &supported), default);
    assert_eq!(output_format(Some(96_000), Some(2), default, &supported), default);
    assert_eq!(output_format(None, None, default, &vec![]), default);
}

#[test]
fn a_configuration_needs_all_of_its_parts() {
    let parts = ConfigParts {
        codec: Some(AudioCodecKind::Opus),
        sample_rate: Some(24_000),
        channel_count: Some(1),
    };
    assert_eq!(
        resolve_static_config(parts),
        Some(AudioStreamConfig {
            codec: AudioCodecKind::Opus,
            sample_rate: 24_000,
            channel_count: 1
        })
    );
    assert_eq!(resolve_static_config(ConfigParts { codec: None, ..parts }), None);
    assert_eq!(resolve_static_config(ConfigParts { sample_rate: None, ..parts }), None);
    assert_eq!(resolve_static_config(ConfigParts { channel_count: None, ..parts }), None);
}

#[test]
fn entities_are_suggested_once() {
    let visualizers = vec![
        VisualizerEntities {
            indicated: texts(&["/a", "/b", "/a"]),
            visualizable: texts(&["/a", "/b", "/c"]),
        },
        VisualizerEntities {
            indicated: texts(&["/c", "/a", "/d"]),
            visualizable: texts(&["/a", "/c"]),
        },
    ];
    let found = suggest_audio_view_for_each_entity(&visualizers, &texts(&["/a", "/c", "/d"]));
    assert_eq!(found, texts(&["/a", "/c"]));
    let unsorted = texts(&["/b", "/a/c", "/ab", "/b", "/a", "/B"]);
    let visualizers = vec![VisualizerEntities {
        indicated: unsorted.clone(),
        visualizable: unsorted.clone(),
    }];
    assert_eq!(
        suggest_audio_view_for_each_entity(&visualizers, &unsorted),
        texts(&["/B", "/a", "/a/c", "/ab", "/b"])
    );
    let own = texts(&[AudioStreamVisualizerSystem::identifier(), "AudioEvent"]);
    let offered = texts(&["Points", "AudioEvent", "AudioStream", "AudioEvent"]);
    assert_eq!(
        AudioView::recommended_visualizers_for_entity(&own, &offered),
        texts(&["AudioEvent", "AudioStream", "AudioEvent"])
    );
    assert_eq!(AudioView::default().display_name(), "Audio");
}

#[test]
fn texts_are_ordered_by_their_characters() {
    assert_eq!(text_order("", ""), TextOrder::Same);
    assert_eq!(text_order("", "a"), TextOrder::Before);
    assert_eq!(text_order("ab", "a"), TextOrder::After);
    assert_eq!(text_order("abc", "abd"), TextOrder::Before);
    assert_eq!(text_order("b", "abd"), TextOrder::After);
    assert_eq!(text_order("z", "\u{e9}"), TextOrder::Before);
    assert_eq!(text_order("\u{1f3b5}", "\u{ffff}"), TextOrder::After);
    assert_eq!(text_order("\u{e9}x", "\u{e9}x"), TextOrder::Same);
}

fn key(row_id: u128) -> BlobKey {
    BlobKey { row_id, component: "blob".into() }
}

#[test]
fn assets_are_loaded_once() {
    let mut cache = AudioAssetCache::new();
    assert_eq!(cache.name(), "AudioAssetCache");
    let none = cache.entry("x".into(), key(1), &vec![1], None, None);
    assert!(matches!(*none, Err(AudioAssetLoadError::UnrecognizedMediaType)));
    let first = cache.entry("x".into(), key(1), &vec![1, 2], None, Some("audio/ogg".into()));
    let asset = first.as_ref().as_ref().unwrap();
    assert_eq!(asset.media_type, "audio/ogg");
    assert_eq!(*asset.blob, vec![1, 2]);
    // The same blob is not loaded again.
    let again = cache.entry("x".into(), key(1), &vec![9], Some("audio/ogg".into()), None);
    assert_eq!(*again.as_ref().as_ref().unwrap().blob, vec![1, 2]);
    // A given media type counts more than a guess.
    let other = cache.entry(
        "x".into(),
        key(1),
        &vec![9],
        Some("audio/wav".into()),
        Some("audio/ogg".into()),
    );
    assert_eq!(other.as_ref().as_ref().unwrap().media_type, "audio/wav");
    assert_eq!(
        AudioAssetLoadError::UnrecognizedMediaType.message(),
        "unrecognized audio media type"
    );
}

fn cached_blob(cache: &mut AudioAssetCache, row_id: u128, bytes: Vec<u8>) -> Vec<u8> {
    let asset = cache.entry("x".into(), key(row_id), &bytes, None, Some("audio/ogg".into()));
    let blob = asset.as_ref().as_ref().unwrap().blob.to_vec();
    blob
}

#[test]
fn unused_assets_are_dropped() {
    let mut cache = AudioAssetCache::new();
    cached_blob(&mut cache, 1, vec![1]);
    cache.begin_frame();
    // Used in the frame before: still there.
    assert_eq!(cached_blob(&mut cache, 1, vec![9]), vec![1]);
    cache.begin_frame();
    cache.begin_frame();
    // Not used for a whole frame: loaded again.
    assert_eq!(cached_blob(&mut cache, 1, vec![9]), vec![9]);
}

#[test]
fn assets_of_removed_blobs_are_dropped() {
    let mut cache = AudioAssetCache::new();
    cached_blob(&mut cache, 1, vec![1]);
    cached_blob(&mut cache, 2, vec![2]);
    let other = BlobKey { row_id: 2, component: "other".into() };
    cache.on_store_events(&vec![key(1), other]);
    assert_eq!(cached_blob(&mut cache, 1, vec![9]), vec![9]);
    assert_eq!(cached_blob(&mut cache, 2, vec![9]), vec![2]);
}

fn components(rate: u32) -> StreamComponents {
    StreamComponents {
        codec: ComponentLookup::Found(AudioCodecKind::Opus),
        sample_rate: ComponentLookup::Found(rate),
        channel_count: ComponentLookup::Found(1),
    }
}

fn entry(
    cache: &mut AudioStreamCache<f32>,
    entity: &str,
    parts: StreamComponents,
) -> Result<usize, AudioStreamProcessingError> {
    cache.audio_entry(entity.into(), "time".into(), parts, 48_000, 48_000, Ok(()), 0.0)
}

#[test]
fn streams_are_set_up_once() {
    let mut cache: AudioStreamCache<f32> = AudioStreamCache::new();
    assert_eq!(cache.name(), "AudioStreamCache");
    assert_eq!(entry(&mut cache, "/a", components(48_000)).unwrap(), 0);
    assert_eq!(entry(&mut cache, "/b", components(24_000)).unwrap(), 1);
    // The components of a stream that is there do not matter.
    assert_eq!(entry(&mut cache, "/a", components(44_100)).unwrap(), 0);
    assert_eq!(cache.stream(1).source_rate, 24_000);
    assert_eq!(cache.stream(0).player.summary(), (AudioCodecKind::Opus, 48_000, 1));
    cache.begin_frame();
    assert_eq!(entry(&mut cache, "/b", components(16_000)).unwrap(), 1);
    cache.begin_frame();
    assert_eq!(entry(&mut cache, "/b", components(16_000)).unwrap(), 0);
    assert_eq!(cache.stream(0).source_rate, 24_000);
    cache.begin_frame();
    cache.begin_frame();
    assert_eq!(entry(&mut cache, "/b", components(16_000)).unwrap(), 0);
    assert_eq!(cache.stream(0).source_rate, 16_000);
    cache.purge_memory();
    assert_eq!(entry(&mut cache, "/b", components(8_000)).unwrap(), 0);
    assert_eq!(cache.stream(0).source_rate, 8_000);
}

#[test]
fn streams_report_what_is_missing() {
    let mut cache: AudioStreamCache<f32> = AudioStreamCache::new();
    let mut parts = components(48_000);
    parts.channel_count = ComponentLookup::Missing;
    let error = entry(&mut cache, "/a", parts).unwrap_err();
    assert!(matches!(error, AudioStreamProcessingError::MissingChannelCount));
    assert_eq!(error.message(), "missing AudioChannelCount component on entity");
    let mut parts = components(48_000);
    parts.channel_count = ComponentLookup::Missing;
    parts.sample_rate = ComponentLookup::Missing;
    let error = entry(&mut cache, "/a", parts).unwrap_err();
    assert!(matches!(error, AudioStreamProcessingError::MissingSampleRate));
    assert_eq!(error.message(), "missing AudioSampleRate component on entity");
    let mut parts = components(48_000);
    parts.codec = ComponentLookup::Missing;
    parts.sample_rate = ComponentLookup::Unreadable("bad".into());
    let error = entry(&mut cache, "/a", parts).unwrap_err();
    assert!(matches!(error, AudioStreamProcessingError::MissingCodec));
    assert_eq!(error.message(), "missing AudioCodec component on entity");
    let mut parts = components(48_000);
    parts.sample_rate = ComponentLookup::Unreadable("bad".into());
    let error = entry(&mut cache, "/a", parts).unwrap_err();
    assert_eq!(error.message(), "failed to read component AudioSampleRate: bad");
    let mut parts = components(48_000);
    parts.codec = ComponentLookup::Unreadable("bad".into());
    let error = entry(&mut cache, "/a", parts).unwrap_err();
    assert_eq!(error.message(), "failed to read component AudioCodec: bad");
    let mut parts = components(48_000);
    parts.channel_count = ComponentLookup::Unreadable("bad".into());
    let error = entry(&mut cache, "/a", parts).unwrap_err();
    assert_eq!(error.message(), "failed to read component AudioChannelCount: bad");
    let mut parts = components(48_000);
    parts.codec = ComponentLookup::Found(AudioCodecKind::Flac);
    let error = entry(&mut cache, "/a", parts).unwrap_err();
    assert!(matches!(
        error,
        AudioStreamProcessingError::Player(AudioError::UnsupportedCodec("flac"))
    ));
    assert_eq!(error.message(), "unsupported audio codec: flac");
}

#[test]
fn segments_are_refreshed_from_rows() {
    let mut cache: AudioStreamCache<f32> = AudioStreamCache::new();
    let at = entry(&mut cache, "/a", components(48_000)).unwrap();
    let row = |time, chunk: Option<Vec<u8>>| StreamRow {
        time,
        chunk,
        duration_samples: Some(960),
        seekable: None,
        discontinuity: None,
    };
    let mut fixed = row(40_000_000, Some(vec![4]));
    fixed.seekable = Some(false);
    fixed.discontinuity = Some(true);
    fixed.duration_samples = None;
    let rows = vec![
        row(0, Some(vec![1])),
        row(20_000_000, Some(vec![])),
        row(30_000_000, None),
        fixed,
    ];
    let stream = cache.stream_mut(at);
    AudioStreamCache::refresh_segments_from_store(stream, &rows);
    assert_eq!(stream.player.begin_tick(60_000_000, TransportState::Playing), TickStart::Seek);
    let first = stream.player.next_decode().unwrap();
    assert_eq!(first.segment.pts_ns, 0);
    assert_eq!(first.segment.chunk, vec![1]);
    assert_eq!(first.segment.duration_ns, 20_000_000);
    assert!(first.segment.seekable);
    stream.player.accept_pcm(960, &[0.0; 960]);
    let second = stream.player.next_decode().unwrap();
    assert_eq!(second.segment.pts_ns, 40_000_000);
    assert_eq!(second.segment.duration_ns, 0);
    assert!(second.reset);
    // Refreshing starts over.
    AudioStreamCache::refresh_segments_from_store(stream, &vec![]);
    assert!(stream.player.next_decode().is_none());
    stream.source_rate = 0;
    AudioStreamCache::refresh_segments_from_store(stream, &rows);
    assert!(stream.player.next_decode().is_none());
}

#[test]
fn sample_counts_become_nanoseconds() {
    assert_eq!(samples_to_ns(960, 48_000), 20_000_000);
    assert_eq!(samples_to_ns(1, 3), 333_333_333);
    assert_eq!(samples_to_ns(5, 0), 0);
    assert_eq!(samples_to_ns(u64::MAX, 1), i64::MAX);
    assert_eq!(samples_to_ns(u64::MAX, 48_000), (u64::MAX / 48_000) as i64);
}
