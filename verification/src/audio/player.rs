//! The stream player: decides when to decode, seek and mute.
//!
//! A tick of the player alternates between these decisions and the work of a decoder: it begins
//! with [`AudioStreamPlayer::begin_tick`], decodes what [`AudioStreamPlayer::next_decode`] asks
//! for as long as it asks, handing back the PCM or the failure, and ends with
//! [`AudioStreamPlayer::finish_tick`]. [`AudioStreamPlayer::tick`] does all of it.

use crate::audio::clock::{position_never_falls, ClockView, MediaClock};
use crate::audio::codec::AudioCodecKind;
use crate::audio::decode::{
    make_decoder, opus_rate, AudioDecoder, DecodedAudio, DecoderConfig, OpusDecoder,
};
use crate::audio::error::{AudioError, DecodeError};
use crate::audio::resampler::Resample;
use crate::audio::ring::{after_write, frames_of, lesser, SampleRing};
use crate::audio::segments::{SegmentIndex, SegmentRef, SegmentView};
use vstd::prelude::*;

verus! {

/// What the player is asked to do.
#[derive(Debug, Clone, Copy, PartialEq, Eq, Structural)]
pub enum TransportState {
    /// Normal playback.
    Playing,
    /// Paused: the queue is silenced and nothing is decoded.
    Paused,
    /// The user is scrubbing: muted, and nothing is decoded.
    Scrubbing,
}

/// Parameters that stay fixed for the lifetime of a player.
#[derive(Debug, Clone, Copy, PartialEq, Eq, Structural)]
pub struct PlayerConfig {
    /// Codec of the stream.
    pub codec: AudioCodecKind,
    /// Sample rate of the encoded stream.
    pub source_rate: u32,
    pub channels: u16,
    /// Sample rate of the output device.
    pub device_rate: u32,
    /// Capacity of the queue, in output-rate frames.
    pub ring_frames: usize,
}

/// The queue is filled until it has less room than this, in frames.
pub const DECODE_WATERMARK: usize = 4_096;

/// A drift above this leads to a seek, in nanoseconds.
pub const SEEK_THRESHOLD_NS: i64 = 100_000_000;

/// How a tick begins.
#[derive(Debug, Clone, Copy, PartialEq, Eq, Structural)]
pub enum TickStart {
    /// Nothing is to be decoded, and the tick is over.
    Muted,
    /// Playback moved to another segment: the decoder and the resampler are to be reset.
    Seek,
    /// Playback goes on.
    Continue,
}

/// What the decoder is to do next.
#[derive(Debug)]
pub struct DecodeRequest {
    /// The segment to decode.
    pub segment: SegmentRef,
    /// Whether the decoder is to be reset first.
    pub reset: bool,
}

/// What a player knows.
#[verifier::ext_equal]
pub struct PlayerView<S> {
    pub config: PlayerConfig,
    /// Frames that wait for the output sink.
    pub queue: Seq<Seq<S>>,
    /// How many frames the queue can hold.
    pub capacity: nat,
    /// Samples in a frame of the queue.
    pub frame_len: nat,
    /// The decoder's count in media time.
    pub clock: ClockView,
    pub segments: Map<i64, SegmentView>,
    pub last_state: TransportState,
    pub last_playhead_ns: i64,
    /// The sample that stands for silence.
    pub silence: S,
    /// Whether the tick decodes nothing more.
    pub stopped: bool,
}

impl<S> PlayerView<S> {
    /// Position of the decoder in media time.
    pub open spec fn media_ns(self) -> i64 {
        self.clock.now()
    }
}

/// Whether a tick has to seek: on every start of playback, and when the playhead has drifted away
/// from the decoder.
pub open spec fn must_seek<S>(
    player: PlayerView<S>,
    playhead_ns: i64,
    state: TransportState,
) -> bool {
    if player.last_state != state && state == TransportState::Playing {
        true
    } else {
        let drift = playhead_ns - player.media_ns();
        drift > SEEK_THRESHOLD_NS || drift < -SEEK_THRESHOLD_NS
    }
}

/// Whether the distance between playhead and decoder can be told.
pub open spec fn drift_fits<S>(
    player: PlayerView<S>,
    playhead_ns: i64,
    state: TransportState,
) -> bool {
    (player.last_state != state && state == TransportState::Playing) || (-i64::MAX <= playhead_ns
        - player.media_ns() <= i64::MAX)
}

/// Whether playback can start at `pts`, which is no later than `playhead_ns`.
pub open spec fn seek_candidate(
    segments: Map<i64, SegmentView>,
    playhead_ns: i64,
    pts: i64,
) -> bool {
    segments.contains_key(pts) && pts <= playhead_ns && segments[pts].seekable
}

/// Whether `pts` is the latest time at which playback can start for the playhead.
pub open spec fn is_seek_target(
    segments: Map<i64, SegmentView>,
    playhead_ns: i64,
    pts: i64,
) -> bool {
    &&& seek_candidate(segments, playhead_ns, pts)
    &&& forall|k: i64| #[trigger] seek_candidate(segments, playhead_ns, k) ==> k <= pts
}

/// Whether `pts` is the earliest time of a segment that is not before `media_ns`.
pub open spec fn is_next_segment(
    segments: Map<i64, SegmentView>,
    media_ns: i64,
    pts: i64,
) -> bool {
    &&& segments.contains_key(pts)
    &&& media_ns <= pts
    &&& forall|k: i64| #[trigger] segments.contains_key(k) && media_ns <= k ==> pts <= k
}

/// Whether there is a decoder for a stream.
pub open spec fn decodable(config: PlayerConfig) -> bool {
    &&& config.codec == AudioCodecKind::Opus
    &&& 1 <= config.channels <= 2
    &&& opus_rate(config.source_rate)
}

/// Whether a stream can be played: there is a decoder for it, and where the device runs at another
/// rate, `resampler` tells that a resampler could be set up.
pub open spec fn playable(config: PlayerConfig, resampler: Result<(), String>) -> bool {
    decodable(config) && (config.source_rate == config.device_rate || resampler is Ok)
}

/// Whether `error` tells why a stream cannot be played.
pub open spec fn unplayable(
    config: PlayerConfig,
    resampler: Result<(), String>,
    error: AudioError,
) -> bool {
    match error {
        AudioError::Decode(DecodeError::Backend(message)) => decodable(config)
            && config.source_rate != config.device_rate && resampler == Err::<(), String>(message),
        AudioError::ChannelMismatch { got, expected } => config.codec == AudioCodecKind::Opus && !(1
            <= config.channels <= 2) && got == config.channels && expected == 2,
        AudioError::UnsupportedCodec(name) => match config.codec {
            AudioCodecKind::Opus => 1 <= config.channels <= 2 && !opus_rate(config.source_rate)
                && name@ == "opus"@,
            AudioCodecKind::Flac => name@ == "flac"@,
        },
        _ => false,
    }
}

/// A player that has just been set up: paused, at the start, without segments.
pub open spec fn fresh_player<S>(config: PlayerConfig, silence: S) -> PlayerView<S> {
    PlayerView {
        config,
        queue: Seq::empty(),
        capacity: if config.ring_frames == 0 {
            1
        } else {
            config.ring_frames as nat
        },
        frame_len: config.channels as nat,
        clock: ClockView { rate: config.source_rate, base_ns: 0, frames: 0 },
        segments: Map::empty(),
        last_state: TransportState::Paused,
        last_playhead_ns: i64::MIN,
        silence,
        stopped: false,
    }
}

/// The player after a tick in which it is not to play: silent.
pub open spec fn silenced<S>(
    player: PlayerView<S>,
    playhead_ns: i64,
    state: TransportState,
) -> PlayerView<S> {
    PlayerView {
        queue: Seq::empty(),
        last_state: state,
        last_playhead_ns: playhead_ns,
        stopped: false,
        ..player
    }
}

/// Whether `after` is how a tick can begin in which the player is to play: with a seek to the
/// latest segment at or before the playhead where playback can start, or, without need or without
/// such a segment, where it was.
pub open spec fn begun<S>(
    before: PlayerView<S>,
    playhead_ns: i64,
    start: TickStart,
    after: PlayerView<S>,
) -> bool {
    match start {
        TickStart::Muted => false,
        TickStart::Seek => {
            &&& must_seek(before, playhead_ns, TransportState::Playing)
            &&& is_seek_target(before.segments, playhead_ns, after.clock.base_ns)
            &&& after == (PlayerView {
                queue: Seq::empty(),
                clock: before.clock.realigned(after.clock.base_ns),
                stopped: false,
                ..before
            })
            &&& after.media_ns() == after.clock.base_ns
        },
        TickStart::Continue => {
            &&& !must_seek(before, playhead_ns, TransportState::Playing) || forall|k: i64|
                !#[trigger] seek_candidate(before.segments, playhead_ns, k)
            &&& after == (PlayerView { stopped: false, ..before })
        },
    }
}

/// Whether the player asks for the segment at `pts`: the queue has room, and the segment is the
/// first one at or after the decoder's position.
pub open spec fn wants<S>(player: PlayerView<S>, pts: i64) -> bool {
    &&& !player.stopped
    &&& player.capacity - player.queue.len() >= DECODE_WATERMARK
    &&& is_next_segment(player.segments, player.media_ns(), pts)
}

/// Whether the player asks for nothing more: it has stopped, the queue is full enough, or no
/// segment is left.
pub open spec fn wants_nothing<S>(player: PlayerView<S>) -> bool {
    ||| player.stopped
    ||| player.capacity - player.queue.len() < DECODE_WATERMARK
    ||| forall|k: i64| #[trigger] player.segments.contains_key(k) ==> k < player.media_ns()
}

/// The player when it has asked for the segment at `pts`: a discontinuity empties the queue.
pub open spec fn asked<S>(player: PlayerView<S>, pts: i64) -> PlayerView<S> {
    PlayerView {
        queue: if player.segments[pts].discontinuity {
            Seq::empty()
        } else {
            player.queue
        },
        ..player
    }
}

/// The player after a block of `decoded_frames` frames, which `resampled` is at the rate of the
/// device. A block that does not move the decoder's position on ends the tick.
pub open spec fn accepted<S>(
    player: PlayerView<S>,
    decoded_frames: u64,
    resampled: Seq<S>,
) -> PlayerView<S> {
    let clock = player.clock.advanced(decoded_frames);
    PlayerView {
        queue: after_write(player.queue, player.capacity, player.frame_len, resampled),
        clock,
        stopped: player.stopped || clock.now() == player.clock.now(),
        ..player
    }
}

/// The player after a segment that did not decode: silent, and done for the tick.
pub open spec fn failed<S>(player: PlayerView<S>) -> PlayerView<S> {
    PlayerView { queue: Seq::empty(), stopped: true, ..player }
}

/// A call that a tick makes on its decoder or on its resampler, and what came back.
pub enum ToolCall<S> {
    /// The decoder is reset.
    ResetDecoder,
    /// The resampler is reset.
    ResetResampler,
    /// The decoder is handed a packet and its time.
    Decode { chunk: Seq<u8>, pts_ns: i64, reply: Result<DecodedAudio<S>, DecodeError> },
    /// The resampler is handed PCM.
    Process { pcm: Seq<S>, out: Seq<S> },
}

/// What comes of one segment in a tick.
pub struct SegmentOutcome<S> {
    /// When the segment plays.
    pub pts_ns: i64,
    /// What the decoder made of it.
    pub reply: Result<DecodedAudio<S>, DecodeError>,
    /// What the resampler made of that, where it decoded.
    pub resampled: Seq<S>,
}

/// The calls with which a tick begins: after a seek, decoder and resampler start over.
pub open spec fn starting_calls<S>(start: TickStart) -> Seq<ToolCall<S>> {
    if start == TickStart::Seek {
        seq![ToolCall::ResetDecoder, ToolCall::ResetResampler]
    } else {
        Seq::empty()
    }
}

/// The calls for one segment: the decoder is reset where the segment is a discontinuity, is
/// handed the packet with its time, and what it decodes goes through the resampler; where it fails
/// it is reset.
pub open spec fn segment_calls<S>(
    player: PlayerView<S>,
    outcome: SegmentOutcome<S>,
) -> Seq<ToolCall<S>> {
    let segment = player.segments[outcome.pts_ns];
    let resets = if segment.discontinuity {
        seq![ToolCall::ResetDecoder]
    } else {
        Seq::empty()
    };
    let decode = ToolCall::Decode {
        chunk: segment.chunk,
        pts_ns: outcome.pts_ns,
        reply: outcome.reply,
    };
    let follow = match outcome.reply {
        Ok(audio) => ToolCall::Process { pcm: audio.samples@, out: outcome.resampled },
        Err(_) => ToolCall::ResetDecoder,
    };
    resets.push(decode).push(follow)
}

/// The player after one segment: the PCM is queued and the position moves on by the frames that
/// were decoded, or the segment failed.
pub open spec fn segment_result<S>(
    player: PlayerView<S>,
    outcome: SegmentOutcome<S>,
) -> PlayerView<S> {
    match outcome.reply {
        Ok(audio) => accepted(
            asked(player, outcome.pts_ns),
            audio.frames() as u64,
            outcome.resampled,
        ),
        Err(_) => failed(asked(player, outcome.pts_ns)),
    }
}

/// Whether the player goes through `states` as it asks for segments one by one and takes in what
/// comes of them.
pub open spec fn decodes_through<S>(
    states: Seq<PlayerView<S>>,
    outcomes: Seq<SegmentOutcome<S>>,
) -> bool {
    &&& states.len() == outcomes.len() + 1
    &&& forall|i: int|
        0 <= i < outcomes.len() ==> wants(states[i], (#[trigger] outcomes[i]).pts_ns) && states[i
            + 1] == segment_result(states[i], outcomes[i])
}

/// The calls for the first `n` segments.
pub open spec fn decoding_calls<S>(
    states: Seq<PlayerView<S>>,
    outcomes: Seq<SegmentOutcome<S>>,
    n: nat,
) -> Seq<ToolCall<S>>
    decreases n,
{
    if n == 0 {
        Seq::empty()
    } else {
        decoding_calls(states, outcomes, (n - 1) as nat) + segment_calls(
            states[n - 1],
            outcomes[n - 1],
        )
    }
}

/// Whether a tick of `before` in which the player is to play makes exactly `calls` and leads to
/// `after`.
pub open spec fn played<S>(
    before: PlayerView<S>,
    playhead_ns: i64,
    calls: Seq<ToolCall<S>>,
    after: PlayerView<S>,
) -> bool {
    exists|start: TickStart, states: Seq<PlayerView<S>>, outcomes: Seq<SegmentOutcome<S>>|
        {
            &&& #[trigger] decodes_through(states, outcomes)
            &&& #[trigger] begun(before, playhead_ns, start, states[0])
            &&& wants_nothing(states.last())
            &&& calls == starting_calls::<S>(start) + decoding_calls(
                states,
                outcomes,
                outcomes.len(),
            )
            &&& after == (PlayerView {
                last_state: TransportState::Playing,
                last_playhead_ns: playhead_ns,
                ..states.last()
            })
        }
}

/// Whether `values` are what something is from call to call, from `first` to `last`.
pub open spec fn leads<T>(values: Seq<T>, calls: nat, first: T, last: T) -> bool {
    values.len() == calls + 1 && values[0] == first && values.last() == last
}

proof fn lemma_same_calls<S>(
    a: Seq<PlayerView<S>>,
    b: Seq<PlayerView<S>>,
    x: Seq<SegmentOutcome<S>>,
    y: Seq<SegmentOutcome<S>>,
    n: nat,
)
    requires
        forall|i: int| 0 <= i < n ==> a[i] == b[i] && x[i] == y[i],
    ensures
        decoding_calls(a, x, n) == decoding_calls(b, y, n),
    decreases n,
{
    if n > 0 {
        lemma_same_calls(a, b, x, y, (n - 1) as nat);
    }
}

proof fn lemma_decoding_goes_on<S>(
    states: Seq<PlayerView<S>>,
    outcomes: Seq<SegmentOutcome<S>>,
    next: PlayerView<S>,
    outcome: SegmentOutcome<S>,
)
    requires
        decodes_through(states, outcomes),
        wants(states.last(), outcome.pts_ns),
        next == segment_result(states.last(), outcome),
    ensures
        decodes_through(states.push(next), outcomes.push(outcome)),
        decoding_calls(states.push(next), outcomes.push(outcome), outcomes.len() + 1)
            == decoding_calls(states, outcomes, outcomes.len()) + segment_calls(
            states.last(),
            outcome,
        ),
{
    let more = states.push(next);
    let longer = outcomes.push(outcome);
    assert forall|i: int| 0 <= i < longer.len() implies wants(
        more[i],
        (#[trigger] longer[i]).pts_ns,
    ) && more[i + 1] == segment_result(more[i], longer[i]) by {
        if i < outcomes.len() {
            assert(wants(states[i], outcomes[i].pts_ns));
        }
    }
    lemma_same_calls(more, states, longer, outcomes, outcomes.len());
}

/// A segment that fails is the last one that a tick decodes, and leaves the queue empty.
pub proof fn failure_ends_a_tick<S>(
    states: Seq<PlayerView<S>>,
    outcomes: Seq<SegmentOutcome<S>>,
    i: int,
)
    requires
        decodes_through(states, outcomes),
        0 <= i < outcomes.len(),
        outcomes[i].reply is Err,
    ensures
        i == outcomes.len() - 1,
        states.last().queue.len() == 0,
{
    assert(states[i + 1] == segment_result(states[i], outcomes[i]));
    if i + 1 < outcomes.len() {
        assert(wants(states[i + 1], outcomes[i + 1].pts_ns));
    }
}

proof fn lemma_positions<S>(
    states: Seq<PlayerView<S>>,
    outcomes: Seq<SegmentOutcome<S>>,
    i: int,
    j: int,
)
    requires
        decodes_through(states, outcomes),
        0 <= i <= j < states.len(),
        states[i].clock.frames <= u128::MAX,
    ensures
        states[i].media_ns() <= states[j].media_ns(),
        states[i].segments == states[j].segments,
        states[j].clock.frames <= u128::MAX,
    decreases j - i,
{
    if i < j {
        lemma_positions(states, outcomes, i, j - 1);
        assert(states[j] == segment_result(states[j - 1], outcomes[j - 1]));
        if let Ok(audio) = outcomes[j - 1].reply {
            position_never_falls(states[j - 1].clock, audio.frames() as u64);
        }
    }
}

/// A tick decodes segments in the order in which they play.
pub proof fn segments_decode_in_order<S>(
    states: Seq<PlayerView<S>>,
    outcomes: Seq<SegmentOutcome<S>>,
    i: int,
    j: int,
)
    requires
        decodes_through(states, outcomes),
        0 <= i <= j < outcomes.len(),
        states[i].clock.frames <= u128::MAX,
    ensures
        outcomes[i].pts_ns <= outcomes[j].pts_ns,
{
    lemma_positions(states, outcomes, i, j);
    assert(wants(states[i], outcomes[i].pts_ns));
    assert(wants(states[j], outcomes[j].pts_ns));
    assert(states[i].segments.contains_key(outcomes[j].pts_ns));
}

/// A tick that begins with a seek resets decoder and resampler before anything else, and decodes
/// the segment that was sought first.
pub proof fn seek_comes_first<S>(
    before: PlayerView<S>,
    playhead_ns: i64,
    states: Seq<PlayerView<S>>,
    outcomes: Seq<SegmentOutcome<S>>,
)
    requires
        begun(before, playhead_ns, TickStart::Seek, states[0]),
        decodes_through(states, outcomes),
    ensures
        ({
            let calls = starting_calls::<S>(TickStart::Seek) + decoding_calls(
                states,
                outcomes,
                outcomes.len(),
            );
            calls[0] == ToolCall::<S>::ResetDecoder && calls[1] == ToolCall::<S>::ResetResampler
        }),
        outcomes.len() > 0 ==> is_seek_target(before.segments, playhead_ns, outcomes[0].pts_ns),
{
    seek_decodes_its_target(before.segments, playhead_ns, states[0].clock.base_ns);
    if outcomes.len() > 0 {
        assert(wants(states[0], outcomes[0].pts_ns));
    }
}

/// Runs between the decoder and the output sink of one stream.
pub struct AudioStreamPlayer<S> {
    config: PlayerConfig,
    decoder: OpusDecoder,
    ring: SampleRing<S>,
    media_clock: MediaClock,
    segments: SegmentIndex,
    last_state: TransportState,
    last_playhead_ns: i64,
    stopped: bool,
}

impl<S: Copy> View for AudioStreamPlayer<S> {
    type V = PlayerView<S>;

    closed spec fn view(&self) -> PlayerView<S> {
        PlayerView {
            config: self.config,
            queue: self.ring@,
            capacity: self.ring.capacity(),
            frame_len: self.ring.frame_len(),
            clock: self.media_clock@,
            segments: self.segments@,
            last_state: self.last_state,
            last_playhead_ns: self.last_playhead_ns,
            silence: self.ring.silent(),
            stopped: self.stopped,
        }
    }
}

/// After a seek, decoding starts with the segment that was sought.
pub proof fn seek_decodes_its_target(
    segments: Map<i64, SegmentView>,
    playhead_ns: i64,
    target: i64,
)
    requires
        is_seek_target(segments, playhead_ns, target),
    ensures
        is_next_segment(segments, target, target),
{
}

impl<S: Copy> AudioStreamPlayer<S> {
    /// Queue and index are well-formed, and the clock runs at the rate of the stream.
    pub closed spec fn wf(&self) -> bool {
        &&& self.ring.wf()
        &&& self.segments.wf()
        &&& self.media_clock@.rate == self.config.source_rate
        &&& self.decoder.rate() == self.config.source_rate
        &&& self.decoder.channel_count() == self.config.channels
        &&& self.ring.frame_len() == self.config.channels
        &&& 1 <= self.config.channels
    }

    /// What a well-formed player keeps to: the queue is within its capacity, and its frames have a
    /// sample for each channel of the stream.
    pub proof fn lemma_wf(&self)
        requires
            self.wf(),
        ensures
            self@.queue.len() <= self@.capacity,
            self@.frame_len == self@.config.channels,
            self@.config.channels >= 1,
    {
        self.ring.lemma_wf();
    }

    /// A player for one stream, paused and without segments. `resampler` tells what came of
    /// setting up a resampler from the rate of the stream to that of the device, and `silence` is
    /// the sample that stands for silence.
    pub fn new(config: PlayerConfig, resampler: Result<(), String>, silence: S) -> (r: Result<
        Self,
        AudioError,
    >)
        requires
            config.channels <= 2 ==> config.ring_frames * config.channels <= usize::MAX,
        ensures
            match r {
                Ok(player) => {
                    &&& playable(config, resampler)
                    &&& player.wf()
                    &&& player@ == fresh_player::<S>(config, silence)
                },
                Err(e) => unplayable(config, resampler, e),
            },
    {
        let decoder = match make_decoder(
            DecoderConfig {
                codec: config.codec,
                sample_rate: config.source_rate,
                channels: config.channels,
            },
        ) {
            Ok(decoder) => decoder,
            Err(e) => return Err(e),
        };
        if config.source_rate != config.device_rate {
            if let Err(message) = resampler {
                return Err(AudioError::Decode(DecodeError::Backend(message)));
            }
        }
        Ok(
            AudioStreamPlayer {
                config,
                decoder,
                ring: SampleRing::new(config.ring_frames, config.channels as usize, silence),
                media_clock: MediaClock::new(config.source_rate),
                segments: SegmentIndex::new(),
                last_state: TransportState::Paused,
                last_playhead_ns: i64::MIN,
                stopped: false,
            },
        )
    }

    /// Registers a segment. Segments may come in any order.
    pub fn push_segment(&mut self, seg: SegmentRef)
        requires
            old(self).wf(),
        ensures
            final(self).wf(),
            final(self)@ == (PlayerView {
                segments: old(self)@.segments.insert(seg.pts_ns, seg@),
                ..old(self)@
            }),
    {
        self.segments.insert(seg);
    }

    /// Drops all known segments.
    pub fn clear_segments(&mut self)
        requires
            old(self).wf(),
        ensures
            final(self).wf(),
            final(self)@ == (PlayerView { segments: Map::empty(), ..old(self)@ }),
    {
        self.segments.clear();
    }

    fn needs_seek(&self, playhead_ns: i64, state: TransportState) -> (r: bool)
        requires
            drift_fits(self@, playhead_ns, state),
        ensures
            r == must_seek(self@, playhead_ns, state),
    {
        if self.last_state != state && state == TransportState::Playing {
            return true;
        }
        let media_ns: i64 = self.media_clock.pts_ns();
        let difference: i64 = playhead_ns - media_ns;
        let drift_ns: i64 = if difference < 0 {
            -difference
        } else {
            difference
        };
        drift_ns > SEEK_THRESHOLD_NS
    }

    /// Tells whether a tick can begin: on a start of playback, or where the distance between the
    /// playhead and the decoder can be told.
    pub fn can_begin_tick(&self, playhead_ns: i64, state: TransportState) -> (r: bool)
        ensures
            r == drift_fits(self@, playhead_ns, state),
    {
        if self.last_state != state && state == TransportState::Playing {
            return true;
        }
        match playhead_ns.checked_sub(self.media_clock.pts_ns()) {
            Some(difference) => difference != i64::MIN,
            None => false,
        }
    }

    /// Begins a tick. Unless the player is to play, the queue is silenced and the tick is over. A
    /// seek moves the decoder to the latest segment at or before the playhead where playback can
    /// start, and empties the queue; without such a segment playback goes on.
    pub fn begin_tick(&mut self, playhead_ns: i64, state: TransportState) -> (r: TickStart)
        requires
            old(self).wf(),
            drift_fits(old(self)@, playhead_ns, state),
        ensures
            final(self).wf(),
            if state == TransportState::Playing {
                begun(old(self)@, playhead_ns, r, final(self)@)
            } else {
                r == TickStart::Muted && final(self)@ == silenced(old(self)@, playhead_ns, state)
            },
    {
        let seek_requested: bool = self.needs_seek(playhead_ns, state);
        self.stopped = false;
        match state {
            TransportState::Paused | TransportState::Scrubbing => {
                self.ring.mute_fade();
                self.last_state = state;
                self.last_playhead_ns = playhead_ns;
                return TickStart::Muted;
            },
            TransportState::Playing => {},
        }
        if !seek_requested {
            return TickStart::Continue;
        }
        let target: Option<i64> = match self.segments.nearest_prior_seekable(playhead_ns) {
            Some(seg) => Some(seg.pts_ns),
            None => None,
        };
        match target {
            Some(pts) => {
                proof {
                    assert forall|k: i64| #[trigger]
                        seek_candidate(self@.segments, playhead_ns, k) implies k <= pts by {
                        assert(self.segments@.contains_key(k));
                    }
                }
                self.media_clock.realign(pts, playhead_ns);
                self.ring.flush();
                TickStart::Seek
            },
            None => {
                proof {
                    assert forall|k: i64| !#[trigger]
                        seek_candidate(self@.segments, playhead_ns, k) by {
                        if self.segments@.contains_key(k) && k <= playhead_ns {
                            assert(!self.segments@[k].seekable);
                        }
                    }
                }
                TickStart::Continue
            },
        }
    }

    /// Asks for the next segment to decode: the first one at or after the decoder's position, as
    /// long as the queue has room and the tick has not stopped. A discontinuity empties the queue
    /// and resets the decoder.
    pub fn next_decode(&mut self) -> (r: Option<DecodeRequest>)
        requires
            old(self).wf(),
        ensures
            final(self).wf(),
            match r {
                Some(request) => {
                    &&& wants(old(self)@, request.segment.pts_ns)
                    &&& request.segment@ == old(self)@.segments[request.segment.pts_ns]
                    &&& request.reset == request.segment.discontinuity
                    &&& final(self)@ == asked(old(self)@, request.segment.pts_ns)
                },
                None => wants_nothing(old(self)@) && final(self)@ == old(self)@,
            },
            old(self)@.stopped ==> r is None,
    {
        if self.stopped || self.ring.available_write() < DECODE_WATERMARK {
            return None;
        }
        let next_pts: i64 = self.media_clock.pts_ns();
        let segment = match self.segments.next_at_or_after(next_pts) {
            Some(seg) => seg.clone(),
            None => return None,
        };
        let reset: bool = segment.discontinuity;
        if reset {
            self.ring.flush();
        }
        Some(DecodeRequest { segment, reset })
    }

    /// Takes in the PCM of a segment: queues what fits of `resampled`, which is at the rate of the
    /// device, and moves the decoder's position on by the frames that were decoded. A block that
    /// does not move the position on ends the tick.
    pub fn accept_pcm(&mut self, decoded_frames: u64, resampled: &[S])
        requires
            old(self).wf(),
        ensures
            final(self).wf(),
            final(self)@ == accepted(old(self)@, decoded_frames, resampled@),
            old(self)@.media_ns() <= final(self)@.media_ns(),
    {
        let before_ns: i64 = self.media_clock.pts_ns();
        let _written: usize = self.ring.write(resampled);
        self.media_clock.advance_frames(decoded_frames);
        if self.media_clock.pts_ns() == before_ns {
            self.stopped = true;
        }
    }

    /// Takes in that a segment did not decode: the queue is emptied, and the tick decodes nothing
    /// more.
    pub fn decode_failed(&mut self)
        requires
            old(self).wf(),
        ensures
            final(self).wf(),
            final(self)@ == failed(old(self)@),
    {
        self.ring.flush();
        self.stopped = true;
    }

    /// Ends a tick that was not muted.
    pub fn finish_tick(&mut self, playhead_ns: i64, state: TransportState)
        requires
            old(self).wf(),
        ensures
            final(self).wf(),
            final(self)@ == (PlayerView {
                last_state: state,
                last_playhead_ns: playhead_ns,
                ..old(self)@
            }),
    {
        self.last_state = state;
        self.last_playhead_ns = playhead_ns;
    }

    /// One tick: called once per frame of the viewer with what the player is to do and where the
    /// playhead is. Decodes until the queue is full enough, no segment is left or one fails. While
    /// the player is not to play, decoder and resampler are left alone.
    ///
    /// `calls` are all the calls that are made on decoder and resampler, in order; each takes the
    /// decoder from one of `decoders` to the next, or the resampler from one of `resamplers` to
    /// the next.
    #[verifier::rlimit(60)]
    pub fn tick<D: AudioDecoder<S>, R: Resample<S>>(
        &mut self,
        playhead_ns: i64,
        state: TransportState,
        decoder: &mut D,
        resampler: &mut R,
    )
        requires
            old(self).wf(),
            drift_fits(old(self)@, playhead_ns, state),
        ensures
            final(self).wf(),
            state != TransportState::Playing ==> {
                &&& final(self)@ == silenced(old(self)@, playhead_ns, state)
                &&& *final(decoder) == *old(decoder)
                &&& *final(resampler) == *old(resampler)
            },
            state == TransportState::Playing ==> exists|
                calls: Seq<ToolCall<S>>,
                decoders: Seq<D>,
                resamplers: Seq<R>,
            |
                {
                    &&& #[trigger] played(old(self)@, playhead_ns, calls, final(self)@)
                    &&& #[trigger] leads(
                        decoders,
                        calls.len(),
                        *old(decoder),
                        *final(decoder),
                    )
                    &&& #[trigger] leads(
                        resamplers,
                        calls.len(),
                        *old(resampler),
                        *final(resampler),
                    )
                    &&& forall|i: int|
                        0 <= i < calls.len() && (#[trigger] calls[i]) is ResetDecoder ==> {
                            &&& resamplers[i + 1] == resamplers[i]
                            &&& exists|d: &mut D|
                                {
                                    &&& *d == decoders[i]
                                    &&& *final(d) == decoders[i + 1]
                                    &&& #[trigger] call_ensures(D::reset, (d,), ())
                                }
                        }
                    &&& forall|i: int|
                        0 <= i < calls.len() && (#[trigger] calls[i]) is ResetResampler ==> {
                            &&& decoders[i + 1] == decoders[i]
                            &&& exists|r: &mut R|
                                {
                                    &&& *r == resamplers[i]
                                    &&& *final(r) == resamplers[i + 1]
                                    &&& #[trigger] call_ensures(R::reset, (r,), ())
                                }
                        }
                    &&& forall|i: int|
                        0 <= i < calls.len() && (#[trigger] calls[i]) is Decode ==> {
                            &&& resamplers[i + 1] == resamplers[i]
                            &&& exists|d: &mut D, c: &[u8]|
                                {
                                    &&& *d == decoders[i]
                                    &&& *final(d) == decoders[i + 1]
                                    &&& c@ == calls[i]->chunk
                                    &&& #[trigger] call_ensures(
                                        D::decode,
                                        (d, c, calls[i]->pts_ns),
                                        calls[i]->reply,
                                    )
                                }
                        }
                    &&& forall|i: int|
                        0 <= i < calls.len() && (#[trigger] calls[i]) is Process ==> {
                            &&& decoders[i + 1] == decoders[i]
                            &&& exists|r: &mut R, p: &[S], v: Vec<S>|
                                {
                                    &&& *r == resamplers[i]
                                    &&& *final(r) == resamplers[i + 1]
                                    &&& p@ == calls[i]->pcm
                                    &&& v@ == calls[i]->out
                                    &&& #[trigger] call_ensures(R::process, (r, p), v)
                                }
                        }
                },
    {
        let ghost before = self@;
        let ghost mut calls: Seq<ToolCall<S>> = Seq::empty();
        let ghost mut decoders: Seq<D> = seq![*decoder];
        let ghost mut resamplers: Seq<R> = seq![*resampler];
        let start = self.begin_tick(playhead_ns, state);
        match start {
            TickStart::Muted => {
                return;
            },
            TickStart::Seek => {
                decoder.reset();
                proof {
                    calls = calls.push(ToolCall::ResetDecoder);
                    decoders = decoders.push(*decoder);
                    resamplers = resamplers.push(*resampler);
                    assert(exists|d: &mut D|
                        *d == decoders[calls.len() - 1] && *final(d) == decoders[calls.len() as int]
                            && #[trigger] call_ensures(D::reset, (d,), ()));
                }
                resampler.reset();
                proof {
                    calls = calls.push(ToolCall::ResetResampler);
                    decoders = decoders.push(*decoder);
                    resamplers = resamplers.push(*resampler);
                    assert(exists|r: &mut R|
                        *r == resamplers[calls.len() - 1] && *final(r)
                            == resamplers[calls.len() as int] && #[trigger] call_ensures(
                            R::reset,
                            (r,),
                            (),
                        ));
                }
            },
            TickStart::Continue => {},
        }
        let ghost first = self@;
        let ghost mut states: Seq<PlayerView<S>> = seq![self@];
        let ghost mut outcomes: Seq<SegmentOutcome<S>> = Seq::empty();
        assert(calls =~= starting_calls::<S>(start) + decoding_calls(states, outcomes, 0));
        loop
            invariant
                self.wf(),
                decodes_through(states, outcomes),
                states[0] == first,
                states.last() == self@,
                calls == starting_calls::<S>(start) + decoding_calls(
                    states,
                    outcomes,
                    outcomes.len(),
                ),
                leads(decoders, calls.len(), *old(decoder), *decoder),
                leads(resamplers, calls.len(), *old(resampler), *resampler),
                forall|i: int|
                    0 <= i < calls.len() && (#[trigger] calls[i]) is ResetDecoder ==> {
                        &&& resamplers[i + 1] == resamplers[i]
                        &&& exists|d: &mut D|
                            {
                                &&& *d == decoders[i]
                                &&& *final(d) == decoders[i + 1]
                                &&& #[trigger] call_ensures(D::reset, (d,), ())
                            }
                    },
                forall|i: int|
                    0 <= i < calls.len() && (#[trigger] calls[i]) is ResetResampler ==> {
                        &&& decoders[i + 1] == decoders[i]
                        &&& exists|r: &mut R|
                            {
                                &&& *r == resamplers[i]
                                &&& *final(r) == resamplers[i + 1]
                                &&& #[trigger] call_ensures(R::reset, (r,), ())
                            }
                    },
                forall|i: int|
                    0 <= i < calls.len() && (#[trigger] calls[i]) is Decode ==> {
                        &&& resamplers[i + 1] == resamplers[i]
                        &&& exists|d: &mut D, c: &[u8]|
                            {
                                &&& *d == decoders[i]
                                &&& *final(d) == decoders[i + 1]
                                &&& c@ == calls[i]->chunk
                                &&& #[trigger] call_ensures(
                                    D::decode,
                                    (d, c, calls[i]->pts_ns),
                                    calls[i]->reply,
                                )
                            }
                    },
                forall|i: int|
                    0 <= i < calls.len() && (#[trigger] calls[i]) is Process ==> {
                        &&& decoders[i + 1] == decoders[i]
                        &&& exists|r: &mut R, p: &[S], v: Vec<S>|
                            {
                                &&& *r == resamplers[i]
                                &&& *final(r) == resamplers[i + 1]
                                &&& p@ == calls[i]->pcm
                                &&& v@ == calls[i]->out
                                &&& #[trigger] call_ensures(R::process, (r, p), v)
                            }
                    },
            ensures
                wants_nothing(self@),
            decreases
                (if self@.stopped {
                    0
                } else {
                    1 + i64::MAX - self@.media_ns()
                }),
        {
            let ghost made = calls;
            let ghost decoders_before = decoders;
            let ghost resamplers_before = resamplers;
            let request = match self.next_decode() {
                Some(request) => request,
                None => {
                    break;
                },
            };
            let pts: i64 = request.segment.pts_ns;
            if request.reset {
                decoder.reset();
                proof {
                    calls = calls.push(ToolCall::ResetDecoder);
                    decoders = decoders.push(*decoder);
                    resamplers = resamplers.push(*resampler);
                    assert(exists|d: &mut D|
                        *d == decoders[calls.len() - 1] && *final(d) == decoders[calls.len() as int]
                            && #[trigger] call_ensures(D::reset, (d,), ()));
                }
            }
            let reply = decoder.decode(request.segment.chunk.as_slice(), pts);
            let ghost mut outcome = SegmentOutcome {
                pts_ns: pts,
                reply,
                resampled: Seq::empty(),
            };
            proof {
                calls = calls.push(
                    ToolCall::Decode { chunk: request.segment.chunk@, pts_ns: pts, reply },
                );
                decoders = decoders.push(*decoder);
                resamplers = resamplers.push(*resampler);
                assert(exists|d: &mut D, c: &[u8]|
                    *d == decoders[calls.len() - 1] && *final(d) == decoders[calls.len() as int]
                        && c@ == request.segment.chunk@ && #[trigger] call_ensures(
                        D::decode,
                        (d, c, pts),
                        reply,
                    ));
            }
            let ghost decoded: int = calls.len() - 1;
            match reply {
                Ok(audio) => {
                    let resampled = resampler.process(audio.samples.as_slice());
                    proof {
                        outcome = SegmentOutcome { resampled: resampled@, ..outcome };
                        calls = calls.push(
                            ToolCall::Process { pcm: audio.samples@, out: resampled@ },
                        );
                        decoders = decoders.push(*decoder);
                        resamplers = resamplers.push(*resampler);
                        assert(exists|r: &mut R, p: &[S], v: Vec<S>|
                            *r == resamplers[calls.len() - 1] && *final(r)
                                == resamplers[calls.len() as int] && p@ == audio.samples@ && v@
                                == resampled@ && #[trigger] call_ensures(R::process, (r, p), v));
                    }
                    let frames: u64 = audio.frame_count() as u64;
                    self.accept_pcm(frames, resampled.as_slice());
                },
                Err(_) => {
                    decoder.reset();
                    proof {
                        calls = calls.push(ToolCall::ResetDecoder);
                        decoders = decoders.push(*decoder);
                        resamplers = resamplers.push(*resampler);
                        assert(exists|d: &mut D|
                            *d == decoders[calls.len() - 1] && *final(d)
                                == decoders[calls.len() as int] && #[trigger] call_ensures(
                                D::reset,
                                (d,),
                                (),
                            ));
                    }
                    self.decode_failed();
                },
            }
            proof {
                assert(calls[decoded]->pts_ns == pts);
                assert(calls[decoded]->reply == reply);
                assert(calls[decoded]->chunk == request.segment.chunk@);
                assert forall|i: int| 0 <= i < made.len() implies #[trigger] calls[i] == made[i]
                    && decoders[i] == decoders_before[i] && decoders[i + 1] == decoders_before[i
                    + 1] && resamplers[i] == resamplers_before[i] && resamplers[i + 1]
                    == resamplers_before[i + 1] by {}
                let more = states.push(self@);
                let longer = outcomes.push(outcome);
                lemma_decoding_goes_on(states, outcomes, self@, outcome);
                assert(calls =~= starting_calls::<S>(start) + decoding_calls(
                    more,
                    longer,
                    longer.len(),
                ));
                states = more;
                outcomes = longer;
            }
        }
        self.finish_tick(playhead_ns, state);
        assert(begun(before, playhead_ns, start, states[0]));
        assert(played(before, playhead_ns, calls, self@));
        assert(leads(decoders, calls.len(), *old(decoder), *decoder));
        assert(leads(resamplers, calls.len(), *old(resampler), *resampler));
    }

    /// Number of frames that wait for the output sink.
    pub fn available_read(&self) -> (n: usize)
        ensures
            n == self@.queue.len(),
    {
        self.ring.available_read()
    }

    /// Hands queued frames to the output sink, as [`SampleRing::drain_into`] does.
    pub fn drain_into(&mut self, out: &mut [S]) -> (taken: usize)
        requires
            old(self).wf(),
        ensures
            final(self).wf(),
            taken == lesser(old(out)@.len() / old(self)@.frame_len, old(self)@.queue.len()),
            final(self)@ == (PlayerView {
                queue: old(self)@.queue.skip(taken as int),
                ..old(self)@
            }),
            final(out)@.len() == old(out)@.len(),
            frames_of(final(out)@, old(self)@.frame_len).take(taken as int)
                == old(self)@.queue.take(taken as int),
            forall|i: int|
                taken * old(self)@.frame_len <= i < old(out)@.len() ==> #[trigger] final(out)@[i]
                    == (if taken < old(out)@.len() / old(self)@.frame_len {
                    old(self)@.silence
                } else {
                    old(out)@[i]
                }),
    {
        self.ring.drain_into(out)
    }

    /// Drops all queued frames.
    pub fn flush(&mut self)
        requires
            old(self).wf(),
        ensures
            final(self).wf(),
            final(self)@ == (PlayerView { queue: Seq::empty(), ..old(self)@ }),
    {
        self.ring.flush();
    }

    /// How the decoder of the stream is set up.
    pub fn decoder(&self) -> (r: OpusDecoder)
        requires
            self.wf(),
        ensures
            r.rate() == self@.config.source_rate,
            r.channel_count() == self@.config.channels,
    {
        self.decoder
    }

    /// Codec, rate and channel count.
    pub fn summary(&self) -> (r: (AudioCodecKind, u32, u16))
        ensures
            r == (self@.config.codec, self@.config.source_rate, self@.config.channels),
    {
        (self.config.codec, self.config.source_rate, self.config.channels)
    }
}

} // verus!
