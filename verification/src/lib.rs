//! Verified core of a video-library engine: keyframe sprite manifests,
//! sprite sheet layout, sampled content hashing, scan filtering and the
//! bookkeeping of batch results.

pub mod text;
pub mod clock;
pub mod layout;
pub mod sprite;
pub mod checksum;
pub mod string_map;
pub mod results;
pub mod thumb;
pub mod scan;
pub mod request;
pub mod preview;
