//! What decoders, players and resamplers are set up for, and what they hand on.

use crate::audio::codec::AudioCodecKind;
use crate::audio::decode::{
    make_decoder, take_pending, DecodedAudio, DecoderConfig, OpusDecoder,
};
use crate::audio::error::{AudioError, DecodeError};
use crate::audio::player::{AudioStreamPlayer, PlayerConfig, TransportState};
use crate::audio::queue_laws::frames_are_cut_in_order;
use crate::audio::resampler::{InterleavedResampler, ResampleStep};
use crate::audio::ring::frames_of;
use vstd::prelude::*;

verus! {

/// The code of a codec are the four letters of its name, the first counting most.
pub proof fn codes_spell_the_codec(kind: AudioCodecKind)
    ensures
        kind.code() == (match kind {
            AudioCodecKind::Opus => (('o' as int * 256 + 'p' as int) * 256 + 'u' as int) * 256
                + 's' as int,
            AudioCodecKind::Flac => (('f' as int * 256 + 'l' as int) * 256 + 'a' as int) * 256
                + 'c' as int,
        }),
{
}

/// There is a decoder exactly for Opus with one or two channels at a rate of which 48 kHz is
/// once, twice, three, four or six times as much; it decodes to that rate and those channels.
pub proof fn opus_is_decoded(config: DecoderConfig, r: Result<OpusDecoder, AudioError>)
    requires
        call_ensures(make_decoder, (config,), r),
    ensures
        r is Ok <==> config.codec == AudioCodecKind::Opus && (config.channels == 1
            || config.channels == 2) && (config.sample_rate == 48_000 || 2 * config.sample_rate
            == 48_000 || 3 * config.sample_rate == 48_000 || 4 * config.sample_rate == 48_000 || 6
            * config.sample_rate == 48_000),
        r matches Ok(decoder) ==> decoder.rate() == config.sample_rate && decoder.channel_count()
            == config.channels,
{
}

/// What was decoded has the samples at the front of the buffer, one for each channel of each
/// frame, and the time of its packet; a failure of the decoder is handed on.
pub proof fn decoded_blocks_hold_their_frames<S: Copy>(
    decoder: &OpusDecoder,
    outcome: Result<usize, String>,
    scratch: &[S],
    pts_ns: i64,
    r: Result<DecodedAudio<S>, DecodeError>,
)
    requires
        call_ensures(OpusDecoder::take_decoded::<S>, (decoder, outcome, scratch, pts_ns), r),
        outcome matches Ok(frames) ==> frames * decoder.channel_count() <= scratch@.len(),
        decoder.channel_count() > 0,
    ensures
        r is Ok <==> outcome is Ok,
        r matches Ok(audio) ==> {
            &&& audio.samples@.len() == outcome->Ok_0 * decoder.channel_count()
            &&& audio.frames() == outcome->Ok_0
            &&& forall|i: int|
                0 <= i < audio.samples@.len() ==> #[trigger] audio.samples@[i] == scratch@[i]
            &&& audio.pts_ns == pts_ns
            &&& audio.sample_rate == decoder.rate()
        },
{
    if let Ok(frames) = outcome {
        let n = frames as int;
        let c = decoder.channel_count() as int;
        assert(0 <= n * c && n * c / c == n) by (nonlinear_arith)
            requires
                n >= 0,
                c > 0,
        ;
    }
}

/// Blocks that wait are handed out last first, one at a time; without any, an empty block with
/// the asked-for time comes.
pub proof fn waiting_blocks_are_handed_out<S>()
    ensures
        forall|
            pending: &mut Vec<DecodedAudio<S>>,
            channels: u16,
            rate: u32,
            pts_ns: i64,
            r: DecodedAudio<S>,
        |
            #[trigger] call_ensures(take_pending::<S>, (pending, channels, rate, pts_ns), r) ==> {
                &&& pending@.len() > 0 ==> r == pending@[pending@.len() - 1]
                    && final(pending)@.len() == pending@.len() - 1
                &&& pending@.len() == 0 ==> r.samples@.len() == 0 && r.pts_ns == pts_ns
                    && final(pending)@.len() == 0
                &&& forall|i: int|
                    0 <= i < final(pending)@.len() ==> #[trigger] final(pending)@[i] == pending@[i]
            },
{
}

/// A player can be set up for what can be decoded, where the rates match or a resampler could be
/// set up, and for nothing else. It is then silent and knows no segments.
pub proof fn players_are_set_up_for_what_decodes<S: Copy>(
    config: PlayerConfig,
    resampler: Result<(), String>,
    silence: S,
    r: Result<AudioStreamPlayer<S>, AudioError>,
)
    requires
        call_ensures(AudioStreamPlayer::<S>::new, (config, resampler, silence), r),
    ensures
        r is Ok <==> config.codec == AudioCodecKind::Opus && (config.channels == 1
            || config.channels == 2) && (config.source_rate == 48_000 || 2 * config.source_rate
            == 48_000 || 3 * config.source_rate == 48_000 || 4 * config.source_rate == 48_000 || 6
            * config.source_rate == 48_000) && (config.source_rate == config.device_rate
            || resampler is Ok),
        r matches Ok(player) ==> {
            &&& player@.config == config
            &&& player@.queue.len() == 0
            &&& player@.last_state == TransportState::Paused
            &&& player@.clock.rate == config.source_rate
            &&& player@.clock.frames == 0
            &&& forall|k: i64| !#[trigger] player@.segments.contains_key(k)
        },
{
}

/// The sink of a player hears the frames at the front of the queue, sample by sample, and silence
/// where the queue runs out; what it has heard is gone, and playback stays where it is.
pub proof fn sinks_hear_the_front_of_the_queue<S: Copy>()
    ensures
        forall|player: &mut AudioStreamPlayer<S>, out: &mut [S], n: usize|
            player.wf() && #[trigger] call_ensures(
                AudioStreamPlayer::<S>::drain_into,
                (player, out),
                n,
            ) ==> {
                let queue = player@.queue;
                let channels = player@.frame_len;
                &&& n <= queue.len()
                &&& n <= out@.len() / channels
                &&& n == queue.len() || n == out@.len() / channels
                &&& final(player)@.queue == queue.skip(n as int)
                &&& final(player)@.media_ns() == player@.media_ns()
                &&& final(player)@.segments == player@.segments
                &&& forall|f: int, c: int|
                    0 <= f < n && 0 <= c < channels ==> #[trigger] queue[f][c]
                        == final(out)@[f * channels + c]
                &&& n < out@.len() / channels ==> forall|i: int|
                    n * channels <= i < out@.len() ==> #[trigger] final(out)@[i] == player@.silence
            },
{
    assert forall|player: &mut AudioStreamPlayer<S>, out: &mut [S], n: usize|
        player.wf() && #[trigger] call_ensures(
            AudioStreamPlayer::<S>::drain_into,
            (player, out),
            n,
        ) implies {
        let queue = player@.queue;
        let channels = player@.frame_len;
        &&& n <= queue.len()
        &&& n <= out@.len() / channels
        &&& n == queue.len() || n == out@.len() / channels
        &&& final(player)@.queue == queue.skip(n as int)
        &&& final(player)@.media_ns() == player@.media_ns()
        &&& final(player)@.segments == player@.segments
        &&& forall|f: int, c: int|
            0 <= f < n && 0 <= c < channels ==> #[trigger] queue[f][c] == final(out)@[f * channels
                + c]
        &&& n < out@.len() / channels ==> forall|i: int|
            n * channels <= i < out@.len() ==> #[trigger] final(out)@[i] == player@.silence
    } by {
        let queue = player@.queue;
        let channels = player@.frame_len;
        let handed = final(out)@;
        player.lemma_wf();
        frames_are_cut_in_order(handed, channels);
        assert forall|f: int, c: int| 0 <= f < n && 0 <= c < channels implies #[trigger] queue[f][c]
            == handed[f * channels + c] by {
            assert(frames_of(handed, channels).take(n as int)[f] == queue.take(n as int)[f]);
            assert(frames_of(handed, channels)[f][c] == handed[f * channels + c]);
        }
    }
}

/// Where the rates match, PCM is handed on as it is. Otherwise nothing is done before enough
/// frames have come, and the planes that are then resampled hold, frame by frame, the samples of
/// their channel.
pub proof fn pcm_is_prepared_by_channel<S: Copy>(
    resampler: &InterleavedResampler,
    pcm: &[S],
    expected: usize,
    r: ResampleStep<S>,
)
    requires
        call_ensures(InterleavedResampler::prepare::<S>, (resampler, pcm, expected), r),
        resampler.width() > 0,
    ensures
        r is Done <==> resampler.from_rate() == resampler.to_rate(),
        r matches ResampleStep::Done(out) ==> out@ == pcm@,
        r is Hold <==> resampler.from_rate() != resampler.to_rate() && pcm@.len() as int
            / (resampler.width() as int) < expected,
        r matches ResampleStep::Run(planes) ==> {
            &&& planes@.len() == resampler.width()
            &&& forall|c: int, f: int|
                0 <= c < planes@.len() && 0 <= f < pcm@.len() as int / resampler.width() as int
                    ==> #[trigger] planes@[c]@[f] == pcm@[f * resampler.width() + c]
        },
{
}

} // verus!
