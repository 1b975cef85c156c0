//! A muxer for fragmented ISO base media files that carry one VP9 video track,
//! and the colour conversion that prepares frames for the encoder.

pub mod endian;
pub mod boxes;
pub mod tags;
pub mod track;
pub mod sample;
pub mod init_segment;
pub mod fragment;
pub mod fmp4;
pub mod yuv_util;
