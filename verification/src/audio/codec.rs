//! Codec and channel-layout descriptors.

use vstd::prelude::*;

verus! {

/// Kinds of audio codecs.
#[derive(Debug, Clone, Copy, PartialEq, Eq, Structural, Hash)]
pub enum AudioCodecKind {
    /// Opus, RFC 6716.
    Opus,
    /// Free Lossless Audio Codec.
    Flac,
}

impl AudioCodecKind {
    /// The `FourCC` value of the codec: the four characters of its name.
    pub open spec fn code(self) -> u32 {
        match self {
            AudioCodecKind::Opus => 0x6f70_7573,
            AudioCodecKind::Flac => 0x666c_6163,
        }
    }

    /// The `FourCC` value that is logged for the codec.
    pub fn fourcc(self) -> (value: u32)
        ensures
            value == self.code(),
    {
        match self {
            AudioCodecKind::Opus => 0x6f70_7573,
            AudioCodecKind::Flac => 0x666c_6163,
        }
    }

    /// The codec with the given `FourCC` value.
    pub fn from_fourcc(value: u32) -> (kind: Option<Self>)
        ensures
            match kind {
                Some(k) => k.code() == value,
                None => forall|k: AudioCodecKind| #[trigger] k.code() != value,
            },
    {
        match value {
            0x6f70_7573 => Some(AudioCodecKind::Opus),
            0x666c_6163 => Some(AudioCodecKind::Flac),
            _ => None,
        }
    }

    /// The `WebCodecs` codec string.
    pub fn webcodecs_string(self) -> (text: &'static str)
        ensures
            text@ == match self {
                AudioCodecKind::Opus => "opus"@,
                AudioCodecKind::Flac => "flac"@,
            },
    {
        match self {
            AudioCodecKind::Opus => "opus",
            AudioCodecKind::Flac => "flac",
        }
    }

    /// The name of the codec for people.
    pub open spec fn name(self) -> Seq<char> {
        match self {
            AudioCodecKind::Opus => "Opus"@,
            AudioCodecKind::Flac => "FLAC"@,
        }
    }

    /// Short human-readable name.
    pub fn display_name(self) -> (text: &'static str)
        ensures
            text@ == self.name(),
    {
        match self {
            AudioCodecKind::Opus => "Opus",
            AudioCodecKind::Flac => "FLAC",
        }
    }
}

/// No two codecs share a `FourCC` value, so that reading a value back gives the codec it was
/// logged for.
pub proof fn fourcc_identifies_codec(a: AudioCodecKind, b: AudioCodecKind)
    ensures
        a.code() == b.code() ==> a == b,
{
}

/// Channel layouts.
#[derive(Debug, Clone, Copy, PartialEq, Eq, Structural, Hash)]
pub enum ChannelLayout {
    /// Unknown or codec-reported layout: channels are raw interleaved.
    Unknown,
    /// Single channel.
    Mono,
    /// L, R.
    Stereo,
    /// L, R, C.
    Lcr,
    /// L, R, LS, RS.
    Quad,
    /// L, R, C, LS, RS.
    FiveDot,
    /// L, R, C, LFE, LS, RS.
    FiveDotOne,
    /// L, R, C, LFE, LS, RS, SL, SR.
    SevenDotOne,
    /// First-order ambisonic, four channels.
    Ambisonic1stOrder,
}

impl ChannelLayout {
    /// The value that is logged for the layout.
    pub open spec fn code(self) -> u32 {
        match self {
            ChannelLayout::Unknown => 0,
            ChannelLayout::Mono => 1,
            ChannelLayout::Stereo => 2,
            ChannelLayout::Lcr => 3,
            ChannelLayout::Quad => 4,
            ChannelLayout::FiveDot => 5,
            ChannelLayout::FiveDotOne => 6,
            ChannelLayout::SevenDotOne => 8,
            ChannelLayout::Ambisonic1stOrder => 10,
        }
    }

    /// The number of interleaved channels, where the layout alone tells it.
    pub open spec fn channels(self) -> Option<u16> {
        match self {
            ChannelLayout::Unknown => None,
            ChannelLayout::Mono => Some(1),
            ChannelLayout::Stereo => Some(2),
            ChannelLayout::Lcr => Some(3),
            ChannelLayout::Quad => Some(4),
            ChannelLayout::FiveDot => Some(5),
            ChannelLayout::FiveDotOne => Some(6),
            ChannelLayout::SevenDotOne => Some(8),
            ChannelLayout::Ambisonic1stOrder => Some(4),
        }
    }

    /// The value that is logged for the layout.
    pub fn value(self) -> (value: u32)
        ensures
            value == self.code(),
    {
        match self {
            ChannelLayout::Unknown => 0,
            ChannelLayout::Mono => 1,
            ChannelLayout::Stereo => 2,
            ChannelLayout::Lcr => 3,
            ChannelLayout::Quad => 4,
            ChannelLayout::FiveDot => 5,
            ChannelLayout::FiveDotOne => 6,
            ChannelLayout::SevenDotOne => 8,
            ChannelLayout::Ambisonic1stOrder => 10,
        }
    }

    /// Number of interleaved channels, or `None` for a layout that needs side information.
    pub fn channel_count(self) -> (count: Option<u16>)
        ensures
            count == self.channels(),
    {
        match self {
            ChannelLayout::Unknown => None,
            ChannelLayout::Mono => Some(1),
            ChannelLayout::Stereo => Some(2),
            ChannelLayout::Lcr => Some(3),
            ChannelLayout::Quad | ChannelLayout::Ambisonic1stOrder => Some(4),
            ChannelLayout::FiveDot => Some(5),
            ChannelLayout::FiveDotOne => Some(6),
            ChannelLayout::SevenDotOne => Some(8),
        }
    }
}

/// The logged value of a layout is its channel count, but for the ambisonic layout, whose name
/// leaves the count open, and the unknown one, which has none.
pub proof fn layout_value_is_channel_count(layout: ChannelLayout)
    ensures
        layout.channels() is None <==> layout == ChannelLayout::Unknown,
        layout != ChannelLayout::Unknown && layout != ChannelLayout::Ambisonic1stOrder
            ==> layout.channels() == Some(layout.code() as u16),
{
}

} // verus!
