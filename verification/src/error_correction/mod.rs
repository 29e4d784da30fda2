//! Forward error correction.

pub mod reed_solomon_codec;
