//! Minimal, targeted MP4 container and GPMF telemetry parsing. This is
//! not a general ISO BMFF parser: it walks only the box paths the GoPro
//! pipeline needs and skips everything else.

pub mod gpmf;
pub mod mp4;
