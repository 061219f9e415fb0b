//! Elevation lookup in a directory of SRTM tiles: tile naming, pixel
//! addressing, resolution detection, sample decoding and a cache of open
//! tile handles.

pub mod cache;
pub mod geo;
pub mod resolution;
pub mod sample;
pub mod service;
