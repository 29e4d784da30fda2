//! Physical layer: CRC-8 integrity, bit/byte conversion, frame format and
//! line coding.

pub mod crc;
pub mod decoding;
pub mod frame;
pub mod line_coding;
