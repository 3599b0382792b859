//! Errors of decoding and playback.

use crate::text::{decimal, decimal_i64, decimal_u64, join2, signed_decimal};
use vstd::prelude::*;

verus! {

/// What a decoder can report.
#[derive(Debug)]
pub enum DecodeError {
    /// A call into the decoder backend failed with a message.
    Backend(String),
    /// The encoded chunk was empty or malformed.
    BadChunk,
    /// The decoder was used before being configured.
    NotConfigured,
}

impl Clone for DecodeError {
    fn clone(&self) -> (r: Self)
        ensures
            r == *self,
    {
        match self {
            DecodeError::Backend(message) => DecodeError::Backend(message.clone()),
            DecodeError::BadChunk => DecodeError::BadChunk,
            DecodeError::NotConfigured => DecodeError::NotConfigured,
        }
    }
}

/// What setting up or driving playback can report.
#[derive(Debug)]
pub enum AudioError {
    /// The codec of the stream is not supported.
    UnsupportedCodec(&'static str),
    /// The decoder failed.
    Decode(DecodeError),
    /// There is no seekable segment at or before the requested time.
    NoSeekableBoundary(i64),
    /// The decoder produces another number of channels than the pipeline takes.
    ChannelMismatch { got: u16, expected: u16 },
}

/// What opening a native output device can report.
#[derive(Debug)]
pub enum CpalSinkError {
    /// No default output device was available.
    NoDefaultDevice,
    /// The device could not report a supported output configuration.
    NoSupportedConfig(String),
    /// Building the audio stream failed.
    BuildStream(String),
    /// Starting the audio stream failed.
    PlayStream(String),
}

/// What opening or feeding a browser output can report.
#[derive(Debug)]
pub enum WebAudioSinkError {
    /// Creating the audio context failed.
    CreateContext(String),
    /// Allocating an audio buffer failed.
    CreateBuffer(String),
    /// Creating a source node failed.
    CreateSource(String),
}

impl DecodeError {
    /// The message for people.
    pub open spec fn text(&self) -> Seq<char> {
        match *self {
            DecodeError::Backend(e) => "decoder failed: "@ + e@,
            DecodeError::BadChunk => "malformed encoded chunk"@,
            DecodeError::NotConfigured => "decoder not configured"@,
        }
    }

    /// The message for people.
    pub fn message(&self) -> (r: String)
        ensures
            r@ == self.text(),
    {
        match self {
            DecodeError::Backend(e) => join2("decoder failed: ", e.as_str()),
            DecodeError::BadChunk => "malformed encoded chunk".to_owned(),
            DecodeError::NotConfigured => "decoder not configured".to_owned(),
        }
    }
}

impl AudioError {
    /// The message for people.
    pub open spec fn text(&self) -> Seq<char> {
        match *self {
            AudioError::UnsupportedCodec(name) => "unsupported audio codec: "@ + name@,
            AudioError::Decode(e) => e.text(),
            AudioError::NoSeekableBoundary(pts) => "no seekable segment at or before pts "@
                + signed_decimal(pts as int) + " ns"@,
            AudioError::ChannelMismatch { got, expected } =>
            "channel count mismatch: decoder produced "@ + decimal(got as nat) + ", expected "@
                + decimal(expected as nat),
        }
    }

    /// The message for people.
    pub fn message(&self) -> (r: String)
        ensures
            r@ == self.text(),
    {
        match self {
            AudioError::UnsupportedCodec(name) => join2("unsupported audio codec: ", name),
            AudioError::Decode(e) => e.message(),
            AudioError::NoSeekableBoundary(pts) => {
                let mut out = join2(
                    "no seekable segment at or before pts ",
                    decimal_i64(*pts).as_str(),
                );
                out.append(" ns");
                out
            },
            AudioError::ChannelMismatch { got, expected } => {
                let mut out = join2(
                    "channel count mismatch: decoder produced ",
                    decimal_u64(*got as u64).as_str(),
                );
                out.append(", expected ");
                out.append(decimal_u64(*expected as u64).as_str());
                out
            },
        }
    }
}

impl CpalSinkError {
    /// The message for people.
    pub fn message(&self) -> (r: String)
        ensures
            r@ == match *self {
                CpalSinkError::NoDefaultDevice => "no default output audio device"@,
                CpalSinkError::NoSupportedConfig(e) => "no supported output config: "@ + e@,
                CpalSinkError::BuildStream(e) => "failed to build audio stream: "@ + e@,
                CpalSinkError::PlayStream(e) => "failed to start audio stream: "@ + e@,
            },
    {
        match self {
            CpalSinkError::NoDefaultDevice => "no default output audio device".to_owned(),
            CpalSinkError::NoSupportedConfig(e) => join2(
                "no supported output config: ",
                e.as_str(),
            ),
            CpalSinkError::BuildStream(e) => join2("failed to build audio stream: ", e.as_str()),
            CpalSinkError::PlayStream(e) => join2("failed to start audio stream: ", e.as_str()),
        }
    }
}

impl WebAudioSinkError {
    /// The message for people.
    pub fn message(&self) -> (r: String)
        ensures
            r@ == match *self {
                WebAudioSinkError::CreateContext(e) => "failed to create AudioContext: "@ + e@,
                WebAudioSinkError::CreateBuffer(e) => "failed to create AudioBuffer: "@ + e@,
                WebAudioSinkError::CreateSource(e) => "failed to create AudioBufferSourceNode: "@
                    + e@,
            },
    {
        match self {
            WebAudioSinkError::CreateContext(e) => join2(
                "failed to create AudioContext: ",
                e.as_str(),
            ),
            WebAudioSinkError::CreateBuffer(e) => join2(
                "failed to create AudioBuffer: ",
                e.as_str(),
            ),
            WebAudioSinkError::CreateSource(e) => join2(
                "failed to create AudioBufferSourceNode: ",
                e.as_str(),
            ),
        }
    }
}

} // verus!
