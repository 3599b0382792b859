//! Decoding and playback of audio streams.

pub mod clock;
pub mod codec;
pub mod decode;
pub mod error;
pub mod output;
pub mod player;
pub mod player_laws;
pub mod queue_laws;
pub mod resampler;
pub mod ring;
pub mod segments;
pub mod setup_laws;
pub mod sink_ring;
