//! Decoders and what they produce.

use crate::audio::codec::AudioCodecKind;
use crate::audio::error::{AudioError, DecodeError};
use vstd::prelude::*;

verus! {

/// A block of decoded PCM samples.
#[derive(Debug)]
pub struct DecodedAudio<S> {
    /// Interleaved samples, `channels` for each frame.
    pub samples: Vec<S>,
    /// Number of interleaved channels.
    pub channels: u16,
    /// Frames per second.
    pub sample_rate: u32,
    /// Presentation time of the first sample, in nanoseconds.
    pub pts_ns: i64,
}

impl<S> DecodedAudio<S> {
    /// The number of whole frames.
    pub open spec fn frames(&self) -> nat {
        if self.channels == 0 {
            0
        } else {
            self.samples@.len() / (self.channels as nat)
        }
    }

    /// Number of frames in this block.
    pub fn frame_count(&self) -> (n: usize)
        ensures
            n == self.frames(),
    {
        if self.channels == 0 {
            0
        } else {
            self.samples.len() / self.channels as usize
        }
    }

    /// How long this block lasts, in nanoseconds.
    pub fn duration_ns(&self) -> (ns: i64)
        requires
            self.sample_rate != 0 ==> self.frames() * 1_000_000_000 <= i64::MAX,
        ensures
            ns == (if self.sample_rate == 0 {
                0
            } else {
                (self.frames() * 1_000_000_000) as int / (self.sample_rate as int)
            }),
    {
        if self.sample_rate == 0 {
            0
        } else {
            let frames: i64 = self.frame_count() as i64;
            frames * 1_000_000_000 / self.sample_rate as i64
        }
    }
}

/// Backend-agnostic decoder.
///
/// `decode` takes one encoded segment and returns the PCM that it produces; nothing is buffered
/// from one call to the next. `reset` discards all internal state.
pub trait AudioDecoder<S> {
    /// Decodes one encoded segment.
    fn decode(&mut self, chunk: &[u8], pts_ns: i64) -> (r: Result<DecodedAudio<S>, DecodeError>);

    /// Discards all internal state.
    fn reset(&mut self);

    /// The codec that the decoder handles.
    fn codec(&self) -> (r: AudioCodecKind);
}

/// What a decoder is made for.
#[derive(Debug, Clone, Copy)]
pub struct DecoderConfig {
    pub codec: AudioCodecKind,
    /// Sample rate requested of the decoder, in Hz.
    pub sample_rate: u32,
    pub channels: u16,
}

/// Room for the samples of one decode call: a packet has at most 120 ms of audio, which is 11520
/// samples at 48 kHz stereo, and there is some to spare.
pub const MAX_FRAME_SAMPLES: usize = 46_080;

/// Whether libopus can decode to a rate.
pub open spec fn opus_rate(sample_rate: u32) -> bool {
    sample_rate == 8_000 || sample_rate == 12_000 || sample_rate == 16_000 || sample_rate == 24_000
        || sample_rate == 48_000
}

/// How an Opus decoder is set up.
#[derive(Debug, Clone, Copy)]
pub struct OpusDecoder {
    sample_rate: u32,
    channels: u16,
}

impl OpusDecoder {
    /// The output rate.
    pub closed spec fn rate(&self) -> u32 {
        self.sample_rate
    }

    /// The output channels.
    pub closed spec fn channel_count(&self) -> u16 {
        self.channels
    }

    /// Sets up a decoder for an output rate and a channel count.
    ///
    /// There are one or two channels. libopus decodes to 8, 12, 16, 24 and 48 kHz; any other rate
    /// is unsupported, and left to a resampler.
    pub fn new(sample_rate: u32, channels: u16) -> (r: Result<Self, AudioError>)
        ensures
            match r {
                Ok(decoder) => {
                    &&& 1 <= channels <= 2
                    &&& opus_rate(sample_rate)
                    &&& decoder.rate() == sample_rate
                    &&& decoder.channel_count() == channels
                },
                Err(AudioError::ChannelMismatch { got, expected }) => !(1 <= channels <= 2) && got
                    == channels && expected == 2,
                Err(AudioError::UnsupportedCodec(name)) => 1 <= channels <= 2 && !opus_rate(
                    sample_rate,
                ) && name@ == "opus"@,
                Err(_) => false,
            },
    {
        if channels != 1 && channels != 2 {
            return Err(AudioError::ChannelMismatch { got: channels, expected: 2 });
        }
        match sample_rate {
            8_000 | 12_000 | 16_000 | 24_000 | 48_000 => Ok(OpusDecoder { sample_rate, channels }),
            _ => Err(AudioError::UnsupportedCodec("opus")),
        }
    }

    /// The output rate, in Hz.
    pub fn sample_rate(&self) -> (r: u32)
        ensures
            r == self.rate(),
    {
        self.sample_rate
    }

    /// The output channels.
    pub fn channels(&self) -> (r: u16)
        ensures
            r == self.channel_count(),
    {
        self.channels
    }

    /// Checks a packet before it goes to the backend: an empty one is malformed.
    pub fn check_chunk(&self, chunk: &[u8]) -> (r: Result<(), DecodeError>)
        ensures
            r == (if chunk@.len() == 0 {
                Err::<(), DecodeError>(DecodeError::BadChunk)
            } else {
                Ok(())
            }),
    {
        if chunk.len() == 0 {
            return Err(DecodeError::BadChunk);
        }
        Ok(())
    }

    /// Takes what the backend decoded out of the scratch buffer: `channels` samples for each
    /// frame. `outcome` is the number of frames, or the message with which the backend failed.
    pub fn take_decoded<S: Copy>(
        &self,
        outcome: Result<usize, String>,
        scratch: &[S],
        pts_ns: i64,
    ) -> (r: Result<DecodedAudio<S>, DecodeError>)
        requires
            outcome matches Ok(frames) ==> frames * self.channel_count() <= scratch@.len(),
        ensures
            match outcome {
                Ok(frames) => {
                    &&& r matches Ok(audio)
                    &&& audio.samples@ == scratch@.take(frames * self.channel_count())
                    &&& audio.channels == self.channel_count()
                    &&& audio.sample_rate == self.rate()
                    &&& audio.pts_ns == pts_ns
                },
                Err(message) => r == Err::<DecodedAudio<S>, DecodeError>(
                    DecodeError::Backend(message),
                ),
            },
    {
        match outcome {
            Ok(frames) => {
                assert(scratch.len() <= usize::MAX);
                let n: usize = frames * self.channels as usize;
                let mut samples: Vec<S> = Vec::new();
                let mut i: usize = 0;
                while i < n
                    invariant
                        i <= n <= scratch@.len(),
                        samples@ == scratch@.take(i as int),
                    decreases n - i,
                {
                    samples.push(scratch[i]);
                    i = i + 1;
                    assert(samples@ =~= scratch@.take(i as int));
                }
                Ok(
                    DecodedAudio {
                        samples,
                        channels: self.channels,
                        sample_rate: self.sample_rate,
                        pts_ns,
                    },
                )
            },
            Err(message) => Err(DecodeError::Backend(message)),
        }
    }
}

/// Sets up a decoder for a stream, where its codec is supported.
pub fn make_decoder(config: DecoderConfig) -> (r: Result<OpusDecoder, AudioError>)
    ensures
        match r {
            Ok(decoder) => {
                &&& config.codec == AudioCodecKind::Opus
                &&& 1 <= config.channels <= 2
                &&& opus_rate(config.sample_rate)
                &&& decoder.rate() == config.sample_rate
                &&& decoder.channel_count() == config.channels
            },
            Err(AudioError::ChannelMismatch { got, expected }) => config.codec
                == AudioCodecKind::Opus && !(1 <= config.channels <= 2) && got == config.channels
                && expected == 2,
            Err(AudioError::UnsupportedCodec(name)) => match config.codec {
                AudioCodecKind::Opus => 1 <= config.channels <= 2 && !opus_rate(config.sample_rate)
                    && name@ == "opus"@,
                AudioCodecKind::Flac => name@ == "flac"@,
            },
            Err(_) => false,
        },
{
    match config.codec {
        AudioCodecKind::Opus => OpusDecoder::new(config.sample_rate, config.channels),
        AudioCodecKind::Flac => Err(AudioError::UnsupportedCodec("flac")),
    }
}

/// A time in whole microseconds, rounded toward zero.
pub open spec fn whole_us(ns: int) -> int {
    if ns >= 0 {
        ns / 1000
    } else {
        -((-ns) / 1000)
    }
}

/// The time stamp of an encoded chunk in the browser: microseconds, limited to 32 bits.
pub fn webcodecs_timestamp(pts_ns: i64) -> (us: i32)
    ensures
        us == (if whole_us(pts_ns as int) < i32::MIN {
            i32::MIN as int
        } else if whole_us(pts_ns as int) > i32::MAX {
            i32::MAX as int
        } else {
            whole_us(pts_ns as int)
        }),
{
    if pts_ns >= 0 {
        let us: i64 = pts_ns / 1000;
        if us > i32::MAX as i64 {
            i32::MAX
        } else {
            us as i32
        }
    } else if pts_ns <= -2_147_483_648_000 {
        i32::MIN
    } else {
        let us: i64 = (-pts_ns) / 1000;
        (-us) as i32
    }
}

/// What a decode call in the browser returns: the block that arrived last, or an empty one while
/// none has arrived.
pub fn take_pending<S>(
    pending: &mut Vec<DecodedAudio<S>>,
    channels: u16,
    sample_rate: u32,
    pts_ns: i64,
) -> (r: DecodedAudio<S>)
    ensures
        old(pending)@.len() > 0 ==> r == old(pending)@.last() && final(pending)@
            == old(pending)@.drop_last(),
        old(pending)@.len() == 0 ==> {
            &&& final(pending)@ == old(pending)@
            &&& r.samples@.len() == 0
            &&& r.channels == channels
            &&& r.sample_rate == sample_rate
            &&& r.pts_ns == pts_ns
        },
{
    match pending.pop() {
        Some(audio) => audio,
        None => DecodedAudio { samples: Vec::new(), channels, sample_rate, pts_ns },
    }
}

} // verus!
