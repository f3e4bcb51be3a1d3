//! H.264 bitstream handling for a Vulkan video player: AVCC to Annex-B
//! conversion, NAL unit and slice header parsing, SPS/PPS parsing, and the
//! small decisions the decoder and device setup make on plain values.

pub mod args;
pub mod bitstream;
pub mod converter;
pub mod h264_parser;
pub mod laws;
pub mod resources;
pub mod types;
