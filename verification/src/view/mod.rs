//! The audio view: what it shows of a stream, and how it plays one.

pub mod labels;
pub mod playback;
pub mod suggest;
pub mod summary;
