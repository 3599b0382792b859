//! The format that an output device is opened with.

use vstd::prelude::*;

verus! {

/// Rate and channel count of an output sink.
#[derive(Debug, Clone, Copy, PartialEq, Eq, Structural)]
pub struct SinkFormat {
    pub sample_rate: u32,
    pub channels: u16,
}

/// Formats that a device supports: one channel count, at every rate between two bounds.
#[derive(Debug, Clone, Copy, PartialEq, Eq, Structural)]
pub struct SupportedFormats {
    pub channels: u16,
    pub min_sample_rate: u32,
    pub max_sample_rate: u32,
}

impl SupportedFormats {
    /// Whether `format` is among these formats.
    pub open spec fn has(&self, format: SinkFormat) -> bool {
        &&& self.channels == format.channels
        &&& self.min_sample_rate <= format.sample_rate <= self.max_sample_rate
    }
}

/// Whether `format` is among one of the supported formats.
pub open spec fn offered(supported: Seq<SupportedFormats>, format: SinkFormat) -> bool {
    exists|i: int| 0 <= i < supported.len() && (#[trigger] supported[i]).has(format)
}

/// What is asked for, where the default of the device stands for what is left open.
pub open spec fn asked_format(
    rate: Option<u32>,
    channels: Option<u16>,
    default: SinkFormat,
) -> SinkFormat {
    SinkFormat {
        sample_rate: match rate {
            Some(rate) => rate,
            None => default.sample_rate,
        },
        channels: match channels {
            Some(channels) => channels,
            None => default.channels,
        },
    }
}

/// Picks the format to open a device with. The desired rate and channel count are hints: where
/// the device does not support them exactly, its default is taken.
pub fn output_format(
    desired_rate: Option<u32>,
    desired_channels: Option<u16>,
    default: SinkFormat,
    supported: &Vec<SupportedFormats>,
) -> (r: SinkFormat)
    ensures
        r == (if offered(supported@, asked_format(desired_rate, desired_channels, default)) {
            asked_format(desired_rate, desired_channels, default)
        } else {
            default
        }),
{
    let asked = SinkFormat {
        sample_rate: match desired_rate {
            Some(rate) => rate,
            None => default.sample_rate,
        },
        channels: match desired_channels {
            Some(channels) => channels,
            None => default.channels,
        },
    };
    let mut i: usize = 0;
    while i < supported.len()
        invariant
            i <= supported@.len(),
            asked == asked_format(desired_rate, desired_channels, default),
            forall|k: int| 0 <= k < i ==> !(#[trigger] supported@[k]).has(asked),
        decreases supported@.len() - i,
    {
        let formats = supported[i];
        if formats.channels == asked.channels && formats.min_sample_rate <= asked.sample_rate
            && asked.sample_rate <= formats.max_sample_rate {
            assert(supported@[i as int].has(asked));
            return asked;
        }
        i = i + 1;
    }
    default
}

} // verus!
