//! Verified core of an audio-based network stack: physical-layer framing
//! and integrity checks, IPv4/ICMP packet handling with fragmentation and
//! reassembly, Reed-Solomon protected payloads and the bit-level codecs used
//! by the modem.

pub mod bytes;
pub mod error_correction;
pub mod mac;
pub mod net;
pub mod pcm;
pub mod phy;
pub mod simple_test;
