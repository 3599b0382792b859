//! Decoding and playback.

use nereid::audio::clock::MediaClock;
use nereid::audio::codec::{AudioCodecKind, ChannelLayout};
use nereid::audio::decode::{
    make_decoder, take_pending, webcodecs_timestamp, AudioDecoder, DecodedAudio, DecoderConfig,
    OpusDecoder,
};
use nereid::audio::error::{AudioError, CpalSinkError, DecodeError, WebAudioSinkError};
use nereid::audio::player::{
    AudioStreamPlayer, PlayerConfig, TickStart, TransportState, DECODE_WATERMARK,
};
use nereid::audio::resampler::{
    interleave, take_plane, InterleavedResampler, Resample, ResampleStep,
};
use nereid::audio::ring::SampleRing;
use nereid::audio::segments::{SegmentIndex, SegmentRef};
use nereid::audio::sink_ring::Ring;

#[test]
fn codecs_round_trip_through_their_code() {
    for kind in [AudioCodecKind::Opus, AudioCodecKind::Flac] {
        assert_eq!(AudioCodecKind::from_fourcc(kind.fourcc()), Some(kind));
    }
    assert_eq!(AudioCodecKind::Opus.fourcc(), 0x6f70_7573);
    assert_eq!(AudioCodecKind::Flac.fourcc(), 0x666c_6163);
    assert_eq!(AudioCodecKind::from_fourcc(0), None);
    assert_eq!(AudioCodecKind::Opus.webcodecs_string(), "opus");
    assert_eq!(AudioCodecKind::Flac.webcodecs_string(), "flac");
    assert_eq!(AudioCodecKind::Opus.display_name(), "Opus");
    assert_eq!(AudioCodecKind::Flac.display_name(), "FLAC");
}

#[test]
fn layouts_have_channels() {
    let cases = [
        (ChannelLayout::Unknown, 0, None),
        (ChannelLayout::Mono, 1, Some(1)),
        (ChannelLayout::Stereo, 2, Some(2)),
        (ChannelLayout::Lcr, 3, Some(3)),
        (ChannelLayout::Quad, 4, Some(4)),
        (ChannelLayout::FiveDot, 5, Some(5)),
        (ChannelLayout::FiveDotOne, 6, Some(6)),
        (ChannelLayout::SevenDotOne, 8, Some(8)),
        (ChannelLayout::Ambisonic1stOrder, 10, Some(4)),
    ];
    for (layout, value, channels) in cases {
        assert_eq!(layout.value(), value);
        assert_eq!(layout.channel_count(), channels);
    }
}

#[test]
fn the_clock_counts_frames() {
    let mut clock = MediaClock::new(48_000);
    assert_eq!(clock.pts_ns(), 0);
    clock.advance_frames(48_000);
    assert_eq!(clock.pts_ns(), 1_000_000_000);
    clock.advance_frames(1);
    assert_eq!(clock.pts_ns(), 1_000_020_833);
    clock.realign(-5, 99);
    assert_eq!(clock.pts_ns(), -5);
    clock.realign(i64::MAX - 1, 0);
    clock.advance_frames(48_000);
    assert_eq!(clock.pts_ns(), i64::MAX);
    let mut stopped = MediaClock::new(0);
    stopped.advance_frames(1_000);
    assert_eq!(stopped.pts_ns(), 0);
}

#[test]
fn the_clock_does_not_drift() {
    let mut clock = MediaClock::new(48_000);
    for _ in 0..3 {
        clock.advance_frames(1);
    }
    assert_eq!(clock.pts_ns(), 62_500);
    let mut clock = MediaClock::new(44_100);
    clock.realign(-1_000, 0);
    let mut frames = 0u64;
    for k in 1..200u64 {
        clock.advance_frames(k);
        frames += k;
        assert_eq!(clock.pts_ns(), -1_000 + (frames * 1_000_000_000 / 44_100) as i64);
    }
    // Counting goes on where time has ended.
    let mut clock = MediaClock::new(1);
    clock.realign(i64::MIN, 0);
    clock.advance_frames(18_446_744_073);
    assert_eq!(clock.pts_ns(), i64::MAX - 709_551_615);
    for _ in 0..10 {
        clock.advance_frames(u64::MAX);
        assert_eq!(clock.pts_ns(), i64::MAX);
    }
}

#[test]
fn what_is_written_comes_out() {
    let mut ring: SampleRing<f32> = SampleRing::new(4, 2, 0.0);
    assert_eq!(ring.available_write(), 4);
    assert_eq!(ring.write(&[1.0, 2.0, 3.0, 4.0, 5.0]), 2);
    assert_eq!(ring.available_read(), 2);
    let mut out = [9.0f32; 2];
    assert_eq!(ring.drain_into(&mut out), 1);
    assert_eq!(out, [1.0, 2.0]);
    // Wraps around.
    assert_eq!(ring.write(&[10.0, 11.0, 12.0, 13.0, 14.0, 15.0, 16.0, 17.0]), 3);
    let mut out = [9.0f32; 10];
    assert_eq!(ring.drain_into(&mut out), 4);
    assert_eq!(out, [3.0, 4.0, 10.0, 11.0, 12.0, 13.0, 14.0, 15.0, 0.0, 0.0]);
    assert_eq!(ring.available_read(), 0);
}

#[test]
fn draining_pads_with_silence_only_where_frames_are_missing() {
    let mut ring: SampleRing<i16> = SampleRing::new(8, 2, -1);
    ring.write(&[1, 2]);
    // One whole frame is wanted and there: the odd sample stays.
    let mut out = [7i16; 3];
    assert_eq!(ring.drain_into(&mut out), 1);
    assert_eq!(out, [1, 2, 7]);
    // Nothing is there: everything becomes silence.
    let mut out = [7i16; 5];
    assert_eq!(ring.drain_into(&mut out), 0);
    assert_eq!(out, [-1, -1, -1, -1, -1]);
}

#[test]
fn flushed_rings_are_empty() {
    let mut ring: SampleRing<u8> = SampleRing::new(3, 1, 0);
    ring.write(&[1, 2, 3, 4]);
    assert_eq!(ring.available_write(), 0);
    ring.flush();
    assert_eq!(ring.available_read(), 0);
    ring.write(&[5]);
    ring.mute_fade();
    assert_eq!(ring.available_read(), 0);
    assert_eq!(ring.available_write(), 3);
    let tiny: SampleRing<u8> = SampleRing::new(0, 0, 0);
    assert_eq!(tiny.available_write(), 1);
}

#[test]
fn sink_rings_queue_samples() {
    let mut ring: Ring<i32> = Ring::new(3, 0);
    assert_eq!(ring.push(&[1, 2]), 2);
    let mut out = [9; 1];
    assert_eq!(ring.pop_into(&mut out), 1);
    assert_eq!(out, [1]);
    assert_eq!(ring.push(&[3, 4, 5]), 2);
    let mut out = [9; 5];
    assert_eq!(ring.pop_into(&mut out), 3);
    assert_eq!(out, [2, 3, 4, 9, 9]);
    ring.push(&[6]);
    let mut out = [9; 3];
    ring.fill(&mut out, -7);
    assert_eq!(out, [6, -7, -7]);
    ring.push(&[8]);
    ring.clear();
    let mut out = [9; 2];
    assert_eq!(ring.pop_into(&mut out), 0);
    assert_eq!(out, [9, 9]);
    let mut one: Ring<i32> = Ring::new(0, 0);
    assert_eq!(one.push(&[1, 2]), 1);
}

fn segment(pts_ns: i64, seekable: bool) -> SegmentRef {
    SegmentRef {
        pts_ns,
        duration_ns: 20,
        chunk: vec![pts_ns as u8],
        seekable,
        discontinuity: false,
    }
}

#[test]
fn segments_are_found_by_time() {
    let mut index = SegmentIndex::new();
    assert!(index.is_empty());
    for (pts, seekable) in [(40, false), (0, true), (20, true), (60, false)] {
        index.insert(segment(pts, seekable));
    }
    assert_eq!(index.len(), 4);
    assert_eq!(index.nearest_prior_seekable(-1).map(|s| s.pts_ns), None);
    assert_eq!(index.nearest_prior_seekable(0).map(|s| s.pts_ns), Some(0));
    assert_eq!(index.nearest_prior_seekable(19).map(|s| s.pts_ns), Some(0));
    assert_eq!(index.nearest_prior_seekable(100).map(|s| s.pts_ns), Some(20));
    assert_eq!(index.next_at_or_after(-5).map(|s| s.pts_ns), Some(0));
    assert_eq!(index.next_at_or_after(20).map(|s| s.pts_ns), Some(20));
    assert_eq!(index.next_at_or_after(21).map(|s| s.pts_ns), Some(40));
    assert!(index.next_at_or_after(61).is_none());
    let found: Vec<i64> = index.range_ns(20, 60).iter().map(|s| s.pts_ns).collect();
    assert_eq!(found, vec![20, 40]);
    assert!(index.range_ns(5, 5).is_empty());
    assert!(index.range_ns(60, 20).is_empty());
    // A segment at the same time takes the place of the one before.
    index.insert(segment(40, true));
    assert_eq!(index.len(), 4);
    assert_eq!(index.nearest_prior_seekable(100).map(|s| s.pts_ns), Some(40));
    index.clear();
    assert!(index.is_empty());
    assert_eq!(SegmentIndex::default().len(), 0);
}

#[test]
fn decoded_blocks_have_a_duration() {
    let audio = DecodedAudio {
        samples: vec![0.0f32; 961],
        channels: 2,
        sample_rate: 48_000,
        pts_ns: 0,
    };
    assert_eq!(audio.frame_count(), 480);
    assert_eq!(audio.duration_ns(), 10_000_000);
    let odd = DecodedAudio {
        samples: vec![0.0f32; 4],
        channels: 0,
        sample_rate: 0,
        pts_ns: 0,
    };
    assert_eq!(odd.frame_count(), 0);
    assert_eq!(odd.duration_ns(), 0);
}

#[test]
fn decoders_exist_for_opus_only() {
    let config = |codec, sample_rate, channels| DecoderConfig {
        codec,
        sample_rate,
        channels,
    };
    for rate in [8_000, 12_000, 16_000, 24_000, 48_000] {
        let decoder = make_decoder(config(AudioCodecKind::Opus, rate, 1)).unwrap();
        assert_eq!(decoder.sample_rate(), rate);
        assert_eq!(decoder.channels(), 1);
    }
    assert!(matches!(
        make_decoder(config(AudioCodecKind::Opus, 44_100, 2)),
        Err(AudioError::UnsupportedCodec("opus"))
    ));
    assert!(matches!(
        make_decoder(config(AudioCodecKind::Flac, 48_000, 2)),
        Err(AudioError::UnsupportedCodec("flac"))
    ));
    for channels in [0, 3] {
        match OpusDecoder::new(44_100, channels) {
            Err(AudioError::ChannelMismatch { got, expected }) => {
                assert_eq!((got, expected), (channels, 2))
            }
            other => panic!("unexpected: {other:?}"),
        }
    }
}

#[test]
fn decoded_samples_are_taken_from_the_scratch_buffer() {
    let decoder = OpusDecoder::new(24_000, 2).unwrap();
    assert!(matches!(decoder.check_chunk(&[]), Err(DecodeError::BadChunk)));
    assert!(decoder.check_chunk(&[1]).is_ok());
    let scratch = [1.0f32, 2.0, 3.0, 4.0, 5.0, 6.0];
    let audio = decoder.take_decoded(Ok(2), &scratch, 77).unwrap();
    assert_eq!(audio.samples, vec![1.0, 2.0, 3.0, 4.0]);
    assert_eq!((audio.channels, audio.sample_rate, audio.pts_ns), (2, 24_000, 77));
    assert!(matches!(
        decoder.take_decoded(Err("corrupt".into()), &scratch, 0),
        Err(DecodeError::Backend(m)) if m == "corrupt"
    ));
}

#[test]
fn browser_time_stamps_are_limited_microseconds() {
    assert_eq!(webcodecs_timestamp(1_999), 1);
    assert_eq!(webcodecs_timestamp(-1_999), -1);
    assert_eq!(webcodecs_timestamp(i64::MAX), i32::MAX);
    assert_eq!(webcodecs_timestamp(i64::MIN), i32::MIN);
    assert_eq!(webcodecs_timestamp(2_147_483_647_999), i32::MAX);
    assert_eq!(webcodecs_timestamp(-2_147_483_648_000), i32::MIN);
    assert_eq!(webcodecs_timestamp(-2_147_483_647_999), -2_147_483_647);
}

#[test]
fn pending_blocks_are_taken() {
    let block = |pts_ns| DecodedAudio {
        samples: vec![0u8],
        channels: 1,
        sample_rate: 1,
        pts_ns,
    };
    let mut pending = vec![block(1), block(2)];
    assert_eq!(take_pending(&mut pending, 2, 48_000, 9).pts_ns, 2);
    assert_eq!(take_pending(&mut pending, 2, 48_000, 9).pts_ns, 1);
    let empty = take_pending(&mut pending, 2, 48_000, 9);
    assert!(empty.samples.is_empty());
    assert_eq!((empty.channels, empty.sample_rate, empty.pts_ns), (2, 48_000, 9));
}

#[test]
fn planes_go_apart_and_together() {
    let pcm = [1, 10, 2, 20, 3, 30, 4];
    assert_eq!(take_plane(&pcm, 2, 0), vec![1, 2, 3]);
    assert_eq!(take_plane(&pcm, 2, 1), vec![10, 20, 30]);
    let planes = vec![vec![1, 2, 3], vec![10, 20, 30]];
    assert_eq!(interleave(&planes, 3), vec![1, 10, 2, 20, 3, 30]);
    assert_eq!(interleave(&planes, 1), vec![1, 10]);
}

#[test]
fn resampling_is_prepared() {
    let same = InterleavedResampler::new(48_000, 48_000, 2);
    assert!(same.is_identity());
    assert!(matches!(same.prepare(&[1, 2, 3], 1024), ResampleStep::Done(v) if v == vec![1, 2, 3]));
    let down = InterleavedResampler::new(48_000, 24_000, 2);
    assert_eq!((down.in_rate(), down.out_rate()), (48_000, 24_000));
    assert!(matches!(down.prepare(&[1, 2, 3], 2), ResampleStep::Hold));
    match down.prepare(&[1, 2, 3, 4], 2) {
        ResampleStep::Run(planes) => assert_eq!(planes, vec![vec![1, 3], vec![2, 4]]),
        other => panic!("unexpected: {other:?}"),
    }
}

fn player(ring_frames: usize) -> AudioStreamPlayer<f32> {
    AudioStreamPlayer::new(
        PlayerConfig {
            codec: AudioCodecKind::Opus,
            source_rate: 48_000,
            channels: 1,
            device_rate: 48_000,
            ring_frames,
        },
        Ok(()),
        0.0,
    )
    .ok()
    .unwrap()
}

#[test]
fn players_need_a_decoder() {
    let config = PlayerConfig {
        codec: AudioCodecKind::Flac,
        source_rate: 48_000,
        channels: 1,
        device_rate: 48_000,
        ring_frames: 10,
    };
    assert!(matches!(
        AudioStreamPlayer::new(config, Ok(()), 0.0f32),
        Err(AudioError::UnsupportedCodec("flac"))
    ));
    assert_eq!(player(10).summary(), (AudioCodecKind::Opus, 48_000, 1));
    assert_eq!(player(10).decoder().sample_rate(), 48_000);
}

#[test]
fn a_device_at_another_rate_needs_a_resampler() {
    let mut config = PlayerConfig {
        codec: AudioCodecKind::Opus,
        source_rate: 48_000,
        channels: 1,
        device_rate: 44_100,
        ring_frames: 10,
    };
    assert!(AudioStreamPlayer::new(config, Ok(()), 0.0f32).is_ok());
    match AudioStreamPlayer::new(config, Err("no".into()), 0.0f32) {
        Err(AudioError::Decode(DecodeError::Backend(message))) => assert_eq!(message, "no"),
        _ => panic!("unexpected"),
    }
    config.device_rate = 48_000;
    assert!(AudioStreamPlayer::new(config, Err("no".into()), 0.0f32).is_ok());
    config.channels = 3;
    assert!(matches!(
        AudioStreamPlayer::new(config, Err("no".into()), 0.0f32),
        Err(AudioError::ChannelMismatch { got: 3, expected: 2 })
    ));
}

#[test]
fn starting_playback_seeks_to_the_segment_before_the_playhead() {
    let mut p = player(48_000);
    p.push_segment(segment(0, true));
    p.push_segment(segment(20_000_000, true));
    p.push_segment(segment(40_000_000, false));
    assert_eq!(p.begin_tick(50_000_000, TransportState::Playing), TickStart::Seek);
    let request = p.next_decode().unwrap();
    assert_eq!(request.segment.pts_ns, 20_000_000);
    assert!(!request.reset);
    p.accept_pcm(960, &[0.5; 960]);
    assert_eq!(p.available_read(), 960);
    // The clock moved on by 20 ms, to the next segment.
    assert_eq!(p.next_decode().unwrap().segment.pts_ns, 40_000_000);
    p.accept_pcm(960, &[0.25; 960]);
    assert!(p.next_decode().is_none());
    p.finish_tick(50_000_000, TransportState::Playing);
    let mut out = [0.0; 961];
    assert_eq!(p.drain_into(&mut out), 961);
    assert_eq!((out[0], out[960]), (0.5, 0.25));
    // Close to the decoder, playback goes on.
    assert_eq!(p.begin_tick(60_000_000, TransportState::Playing), TickStart::Continue);
    assert_eq!(p.begin_tick(160_000_000, TransportState::Playing), TickStart::Continue);
    assert!(!p.can_begin_tick(i64::MIN, TransportState::Playing));
    assert!(p.can_begin_tick(i64::MAX, TransportState::Playing));
    // More than 100 ms away it seeks.
    assert_eq!(p.begin_tick(160_000_001, TransportState::Playing), TickStart::Seek);
}

#[test]
fn paused_and_scrubbing_players_are_silent() {
    let mut p = player(48_000);
    p.push_segment(segment(0, true));
    p.begin_tick(0, TransportState::Playing);
    p.accept_pcm(10, &[0.5; 10]);
    p.finish_tick(0, TransportState::Playing);
    for state in [TransportState::Paused, TransportState::Scrubbing] {
        p.accept_pcm(10, &[0.5; 10]);
        assert_eq!(p.begin_tick(0, state), TickStart::Muted);
        assert_eq!(p.available_read(), 0);
    }
    // Playback that starts again always seeks.
    assert_eq!(p.begin_tick(0, TransportState::Playing), TickStart::Seek);
}

#[test]
fn playback_without_a_seek_target_goes_on() {
    let mut p = player(48_000);
    p.push_segment(segment(500, true));
    assert_eq!(p.begin_tick(0, TransportState::Playing), TickStart::Continue);
    assert_eq!(p.next_decode().unwrap().segment.pts_ns, 500);
    p.clear_segments();
    assert!(p.next_decode().is_none());
}

#[test]
fn discontinuities_and_failures_empty_the_queue() {
    let mut p = player(48_000);
    let mut broken = segment(0, true);
    broken.discontinuity = true;
    p.push_segment(broken);
    p.accept_pcm(0, &[]);
    p.begin_tick(0, TransportState::Playing);
    let request = p.next_decode().unwrap();
    assert!(request.reset);
    assert_eq!(p.available_read(), 0);
    p.accept_pcm(10, &[0.5; 10]);
    p.decode_failed();
    assert_eq!(p.available_read(), 0);
    // The tick is over; the next one goes on.
    assert!(p.next_decode().is_none());
    p.finish_tick(0, TransportState::Playing);
    p.push_segment(segment(10_000_000, true));
    p.begin_tick(0, TransportState::Playing);
    assert_eq!(p.next_decode().unwrap().segment.pts_ns, 10_000_000);
    p.accept_pcm(10, &[0.5; 10]);
    p.flush();
    assert_eq!(p.available_read(), 0);
}

#[test]
fn the_clock_counts_decoded_frames() {
    let mut p = AudioStreamPlayer::new(
        PlayerConfig {
            codec: AudioCodecKind::Opus,
            source_rate: 48_000,
            channels: 1,
            device_rate: 24_000,
            ring_frames: 48_000,
        },
        Ok(()),
        0.0f32,
    )
    .ok()
    .unwrap();
    p.push_segment(segment(0, true));
    p.push_segment(segment(20_000_000, true));
    p.begin_tick(0, TransportState::Playing);
    assert_eq!(p.next_decode().unwrap().segment.pts_ns, 0);
    // Half as many frames come out as go in.
    p.accept_pcm(960, &[0.5; 480]);
    assert_eq!(p.available_read(), 480);
    assert_eq!(p.next_decode().unwrap().segment.pts_ns, 20_000_000);
    // Nothing comes out as long as the resampler holds; the decoder has moved on all the same.
    p.accept_pcm(960, &[]);
    assert!(p.next_decode().is_none());
    // A block without frames ends the tick.
    p.push_segment(segment(40_000_000, true));
    p.accept_pcm(0, &[]);
    assert!(p.next_decode().is_none());
}

/// Decodes packets to as many frames as their first byte says, in units of 10 ms, and fails on
/// packets that begin with zero.
struct CountingDecoder {
    decoded: Vec<i64>,
    resets: usize,
}

impl AudioDecoder<f32> for CountingDecoder {
    fn decode(&mut self, chunk: &[u8], pts_ns: i64) -> Result<DecodedAudio<f32>, DecodeError> {
        self.decoded.push(pts_ns);
        if chunk[0] == 0 {
            return Err(DecodeError::BadChunk);
        }
        Ok(DecodedAudio {
            samples: vec![0.5; chunk[0] as usize * 480],
            channels: 1,
            sample_rate: 48_000,
            pts_ns,
        })
    }

    fn reset(&mut self) {
        self.resets += 1;
    }

    fn codec(&self) -> AudioCodecKind {
        AudioCodecKind::Opus
    }
}

/// Hands on what it gets.
struct SameRate {
    resets: usize,
}

impl Resample<f32> for SameRate {
    fn process(&mut self, pcm: &[f32]) -> Vec<f32> {
        pcm.to_vec()
    }

    fn reset(&mut self) {
        self.resets += 1;
    }
}

#[test]
fn a_tick_decodes_from_the_seek_target_on() {
    let packet = |pts_ns: i64, units: u8| SegmentRef {
        chunk: vec![units],
        ..segment(pts_ns, true)
    };
    let mut decoder = CountingDecoder { decoded: vec![], resets: 0 };
    let mut resampler = SameRate { resets: 0 };
    let mut p = player(48_000);
    for k in 0..5 {
        p.push_segment(packet(k * 20_000_000, 2));
    }
    p.tick(50_000_000, TransportState::Playing, &mut decoder, &mut resampler);
    assert_eq!(decoder.decoded, vec![40_000_000, 60_000_000, 80_000_000]);
    assert_eq!((decoder.resets, resampler.resets), (1, 1));
    assert_eq!(p.available_read(), 3 * 960);
    // Nothing is left, and nothing is decoded again.
    p.tick(60_000_000, TransportState::Playing, &mut decoder, &mut resampler);
    assert_eq!(decoder.decoded.len(), 3);
    // A segment that fails ends the tick and silences the player.
    p.push_segment(packet(100_000_000, 0));
    p.push_segment(packet(120_000_000, 2));
    p.tick(70_000_000, TransportState::Playing, &mut decoder, &mut resampler);
    assert_eq!(decoder.decoded.last(), Some(&100_000_000));
    assert_eq!(decoder.decoded.len(), 4);
    assert_eq!(decoder.resets, 2);
    assert_eq!(p.available_read(), 0);
    p.tick(70_000_000, TransportState::Paused, &mut decoder, &mut resampler);
    assert_eq!(decoder.decoded.len(), 4);
    // The queue is filled until it has less room than the decoder may need.
    let mut full = player(DECODE_WATERMARK + 960);
    for k in 0..10 {
        full.push_segment(packet(k * 20_000_000, 2));
    }
    let mut decoder = CountingDecoder { decoded: vec![], resets: 0 };
    full.tick(0, TransportState::Playing, &mut decoder, &mut resampler);
    assert_eq!(decoder.decoded, vec![0, 20_000_000]);
}

/// Keeps what it was handed, and doubles its samples.
struct Recorder {
    calls: Vec<String>,
}

impl AudioDecoder<f32> for Recorder {
    fn decode(&mut self, chunk: &[u8], pts_ns: i64) -> Result<DecodedAudio<f32>, DecodeError> {
        self.calls.push(format!("decode {chunk:?} at {pts_ns}"));
        if chunk[0] == 0 {
            return Err(DecodeError::BadChunk);
        }
        let samples = vec![chunk[0] as f32; 960];
        Ok(DecodedAudio { samples, channels: 1, sample_rate: 48_000, pts_ns })
    }

    fn reset(&mut self) {
        self.calls.push("reset".into());
    }

    fn codec(&self) -> AudioCodecKind {
        AudioCodecKind::Opus
    }
}

impl Resample<f32> for Recorder {
    fn process(&mut self, pcm: &[f32]) -> Vec<f32> {
        self.calls.push(format!("process {} of {}", pcm.len(), pcm[0]));
        vec![pcm[0] * 2.0; pcm.len()]
    }

    fn reset(&mut self) {
        self.calls.push("reset".into());
    }
}

#[test]
fn a_tick_hands_packets_to_the_decoder_and_pcm_to_the_resampler() {
    let mut decoder = Recorder { calls: vec![] };
    let mut resampler = Recorder { calls: vec![] };
    let mut p = player(48_000);
    p.push_segment(SegmentRef { chunk: vec![3, 7], ..segment(0, true) });
    let break_at = segment(20_000_000, true);
    p.push_segment(SegmentRef { chunk: vec![4], discontinuity: true, ..break_at });
    p.push_segment(SegmentRef { chunk: vec![5, 9], ..segment(40_000_000, true) });
    for state in [TransportState::Paused, TransportState::Scrubbing] {
        p.tick(0, state, &mut decoder, &mut resampler);
        assert!(decoder.calls.is_empty());
        assert!(resampler.calls.is_empty());
    }
    p.tick(0, TransportState::Playing, &mut decoder, &mut resampler);
    assert_eq!(
        decoder.calls,
        vec![
            "reset",
            "decode [3, 7] at 0",
            "reset",
            "decode [4] at 20000000",
            "decode [5, 9] at 40000000",
        ]
    );
    assert_eq!(
        resampler.calls,
        vec!["reset", "process 960 of 3", "process 960 of 4", "process 960 of 5"]
    );
    // The discontinuity dropped what was queued before it.
    assert_eq!(p.available_read(), 2 * 960);
    let mut queued = vec![0.0; 1_920];
    assert_eq!(p.drain_into(&mut queued), 1_920);
    assert_eq!((queued[0], queued[959], queued[960], queued[1_919]), (8.0, 8.0, 10.0, 10.0));
    // A failure resets the decoder alone.
    p.push_segment(SegmentRef { chunk: vec![0], ..segment(60_000_000, true) });
    p.tick(50_000_000, TransportState::Playing, &mut decoder, &mut resampler);
    assert_eq!(decoder.calls[5..].to_vec(), vec!["decode [0] at 60000000", "reset"]);
    assert_eq!(resampler.calls.len(), 4);
}

#[test]
fn a_full_queue_asks_for_nothing() {
    let mut p = player(DECODE_WATERMARK);
    p.push_segment(segment(0, true));
    p.begin_tick(0, TransportState::Playing);
    assert!(p.next_decode().is_some());
    p.push_segment(segment(1_000_000_000, true));
    p.accept_pcm(1, &[0.5; 1]);
    assert!(p.next_decode().is_none());
    let mut small = player(DECODE_WATERMARK - 1);
    small.push_segment(segment(0, true));
    small.begin_tick(0, TransportState::Playing);
    assert!(small.next_decode().is_none());
}

#[test]
fn audio_errors_have_messages() {
    let cases = vec![
        (AudioError::UnsupportedCodec("flac"), "unsupported audio codec: flac"),
        (AudioError::Decode(DecodeError::Backend("x".into())), "decoder failed: x"),
        (AudioError::Decode(DecodeError::BadChunk), "malformed encoded chunk"),
        (AudioError::Decode(DecodeError::NotConfigured), "decoder not configured"),
        (
            AudioError::NoSeekableBoundary(-12),
            "no seekable segment at or before pts -12 ns",
        ),
        (
            AudioError::ChannelMismatch { got: 6, expected: 2 },
            "channel count mismatch: decoder produced 6, expected 2",
        ),
    ];
    for (error, text) in cases {
        assert_eq!(error.message(), text);
    }
    assert_eq!(CpalSinkError::NoDefaultDevice.message(), "no default output audio device");
    assert_eq!(
        CpalSinkError::NoSupportedConfig("x".into()).message(),
        "no supported output config: x"
    );
    assert_eq!(
        CpalSinkError::BuildStream("x".into()).message(),
        "failed to build audio stream: x"
    );
    assert_eq!(
        CpalSinkError::PlayStream("x".into()).message(),
        "failed to start audio stream: x"
    );
    assert_eq!(
        WebAudioSinkError::CreateContext("x".into()).message(),
        "failed to create AudioContext: x"
    );
    assert_eq!(
        WebAudioSinkError::CreateBuffer("x".into()).message(),
        "failed to create AudioBuffer: x"
    );
    assert_eq!(
        WebAudioSinkError::CreateSource("x".into()).message(),
        "failed to create AudioBufferSourceNode: x"
    );
}
