//! Matroska (EBML) demuxing and fragmented-MP4 remuxing, with verified contracts.

pub mod bytes;
pub mod text;
pub mod scan;
pub mod ids;
pub mod remux;
pub mod mkv_write;
pub mod fmp4;
pub mod ebml;
pub mod index;
pub mod track;
pub mod player;
pub mod range_cache;
pub mod schema;
