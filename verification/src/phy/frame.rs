//! PHY frame format: `[Len:2][CRC:1][Type:1][Seq:1][Src:1][Dst:1][Data:Len]`
//! (length big-endian, CRC-8 over the data only).

use vstd::prelude::*;
use crate::phy::crc::{bits_to_bytes, bytes_to_bits, calculate_crc8, verify_crc8, crc8, bits_bytes, bytes_bits, lemma_bytes_bits_roundtrip};

verus! {

pub type CRCType = u8;

pub type SeqType = u8;

pub type LenType = usize;

/// Size of the frame header in bytes: length (2), CRC, type, sequence,
/// source and destination (1 each).
pub const PHY_HEADER_BYTES: usize = 7;

#[derive(Debug, Clone, Copy, PartialEq, Eq, Structural)]
pub enum FrameType {
    Data,
    Ack,
}

/// Wire code of a frame type.
pub open spec fn frame_type_code(t: FrameType) -> u8 {
    match t {
        FrameType::Data => 0x01,
        FrameType::Ack => 0x02,
    }
}

/// Frame type carried by a wire code, if any.
pub open spec fn frame_type_of_code(value: u8) -> Option<FrameType> {
    if value == 0x01 {
        Some(FrameType::Data)
    } else if value == 0x02 {
        Some(FrameType::Ack)
    } else {
        None
    }
}

impl FrameType {
    pub fn from_u8(value: u8) -> (t: Option<Self>)
        ensures
            t == frame_type_of_code(value),
    {
        match value {
            0x01 => Some(FrameType::Data),
            0x02 => Some(FrameType::Ack),
            _ => None,
        }
    }

    pub fn to_u8(self) -> (v: u8)
        ensures
            v == frame_type_code(self),
    {
        match self {
            FrameType::Data => 0x01,
            FrameType::Ack => 0x02,
        }
    }
}

/// PHY frame.
#[derive(Debug, Clone)]
pub struct Frame {
    pub frame_type: FrameType,
    /// Sequence number for ordering and acknowledgement.
    pub sequence: u8,
    /// Source address.
    pub src: u8,
    /// Destination address.
    pub dst: u8,
    /// Payload.
    pub data: Vec<u8>,
}

/// Mathematical content of a frame.
pub struct FrameView {
    pub frame_type: FrameType,
    pub sequence: u8,
    pub src: u8,
    pub dst: u8,
    pub data: Seq<u8>,
}

impl View for Frame {
    type V = FrameView;

    open spec fn view(&self) -> FrameView {
        FrameView {
            frame_type: self.frame_type,
            sequence: self.sequence,
            src: self.src,
            dst: self.dst,
            data: self.data@,
        }
    }
}

/// High byte of the 16-bit length field.
pub open spec fn len_hi(len: usize) -> u8 {
    (len >> 8usize) as u8
}

/// Low byte of the 16-bit length field.
pub open spec fn len_lo(len: usize) -> u8 {
    (len & 0xFFusize) as u8
}

/// Length encoded by the two length bytes.
pub open spec fn len_of(hi: u8, lo: u8) -> usize {
    ((hi as usize) << 8usize) | (lo as usize)
}

/// Wire bytes of a frame (no preamble). Only the low 16 bits of the data
/// length are recorded.
pub open spec fn frame_bytes(f: FrameView) -> Seq<u8> {
    seq![
        len_hi(f.data.len() as usize),
        len_lo(f.data.len() as usize),
        crc8(f.data),
        frame_type_code(f.frame_type),
        f.sequence,
        f.src,
        f.dst,
    ] + f.data
}

/// Header fields (length, CRC, type, sequence, source, destination) of a
/// byte sequence, or `None` when it is shorter than a header or the type
/// code is unknown.
pub open spec fn header_of_bytes(bytes: Seq<u8>) -> Option<(LenType, CRCType, FrameType, SeqType, u8, u8)> {
    if bytes.len() < PHY_HEADER_BYTES {
        None
    } else {
        match frame_type_of_code(bytes[3]) {
            Some(t) => Some((len_of(bytes[0], bytes[1]), bytes[2], t, bytes[4], bytes[5], bytes[6])),
            None => None,
        }
    }
}

/// Frame carried by a byte sequence: a valid header followed by at least
/// `len` data bytes whose CRC-8 matches; later bytes are ignored.
pub open spec fn frame_of_bytes(bytes: Seq<u8>) -> Option<FrameView> {
    match header_of_bytes(bytes) {
        Some((len, crc, t, sequence, src, dst)) => {
            if bytes.len() < PHY_HEADER_BYTES + len {
                None
            } else {
                let data = bytes.subrange(PHY_HEADER_BYTES as int, PHY_HEADER_BYTES + len);
                if crc8(data) != crc {
                    None
                } else {
                    Some(FrameView { frame_type: t, sequence, src, dst, data })
                }
            }
        },
        None => None,
    }
}

impl Frame {
    pub fn new(frame_type: FrameType, sequence: u8, src: u8, dst: u8, data: Vec<u8>) -> (f: Self)
        ensures
            f@ == (FrameView { frame_type, sequence, src, dst, data: data@ }),
    {
        Self { frame_type, sequence, src, dst, data }
    }

    pub fn new_data(sequence: u8, src: u8, dst: u8, data: Vec<u8>) -> (f: Self)
        ensures
            f@ == (FrameView { frame_type: FrameType::Data, sequence, src, dst, data: data@ }),
    {
        Self::new(FrameType::Data, sequence, src, dst, data)
    }

    pub fn new_ack(sequence: u8, from: u8, to: u8) -> (f: Self)
        ensures
            f@ == (FrameView {
                frame_type: FrameType::Ack,
                sequence,
                src: from,
                dst: to,
                data: Seq::<u8>::empty(),
            }),
    {
        Self::new(FrameType::Ack, sequence, from, to, Vec::new())
    }

    /// Serialize the frame to bytes (without preamble).
    pub fn to_bytes(&self) -> (bytes: Vec<u8>)
        ensures
            bytes@ == frame_bytes(self@),
    {
        let mut bytes: Vec<u8> = Vec::new();
        let len: LenType = self.data.len();
        bytes.push((len >> 8usize) as u8);
        bytes.push((len & 0xFFusize) as u8);
        let crc = calculate_crc8(self.data.as_slice());
        bytes.push(crc);
        bytes.push(self.frame_type.to_u8());
        bytes.push(self.sequence);
        bytes.push(self.src);
        bytes.push(self.dst);
        let mut i: usize = 0;
        while i < self.data.len()
            invariant
                i <= self.data@.len(),
                bytes@ == seq![
                    len_hi(len),
                    len_lo(len),
                    crc8(self.data@),
                    frame_type_code(self.frame_type),
                    self.sequence,
                    self.src,
                    self.dst,
                ] + self.data@.subrange(0, i as int),
            decreases self.data.len() - i,
        {
            bytes.push(self.data[i]);
            assert(self.data@.subrange(0, i + 1) =~= self.data@.subrange(0, i as int).push(
                self.data@[i as int],
            ));
            i += 1;
        }
        assert(self.data@.subrange(0, self.data@.len() as int) =~= self.data@);
        bytes
    }

    /// Serialize the frame to bits (without preamble).
    pub fn to_bits(&self) -> (bits: Vec<u8>)
        ensures
            bits@ == bytes_bits(frame_bytes(self@)),
    {
        let bytes = self.to_bytes();
        bytes_to_bits(bytes.as_slice())
    }

    /// Parse the header carried by the bytes that `bits` pack into.
    pub fn parse_header(bits: &[u8]) -> (h: Option<(LenType, CRCType, FrameType, SeqType, u8, u8)>)
        ensures
            h == header_of_bytes(bits_bytes(bits@)),
    {
        let bytes = bits_to_bytes(bits);
        Self::parse_header_bytes(bytes.as_slice())
    }

    fn parse_header_bytes(bytes: &[u8]) -> (h: Option<(LenType, CRCType, FrameType, SeqType, u8, u8)>)
        ensures
            h == header_of_bytes(bytes@),
    {
        if bytes.len() < PHY_HEADER_BYTES {
            return None;
        }
        let len: LenType = ((bytes[0] as usize) << 8usize) | (bytes[1] as usize);
        let crc: CRCType = bytes[2];
        let frame_type: FrameType = FrameType::from_u8(bytes[3])?;
        let sequence: SeqType = bytes[4];
        let src: u8 = bytes[5];
        let dst: u8 = bytes[6];
        Some((len, crc, frame_type, sequence, src, dst))
    }

    /// Deserialize a frame from bytes (without preamble). Returns `None` when
    /// the header is short or carries an unknown type, the data is shorter
    /// than the length field says, or the CRC check fails.
    pub fn from_bytes(bytes: &[u8]) -> (f: Option<Self>)
        ensures
            match f {
                Some(f) => frame_of_bytes(bytes@) == Some(f@),
                None => frame_of_bytes(bytes@) is None,
            },
    {
        if bytes.len() < PHY_HEADER_BYTES {
            return None;
        }
        let header = vstd::slice::slice_subrange(bytes, 0, PHY_HEADER_BYTES);
        assert(header@ =~= bytes@.subrange(0, 7));
        let (len, crc, frame_type, sequence, src, dst) = Self::parse_header_bytes(header)?;
        if bytes.len() - PHY_HEADER_BYTES < len {
            return None;
        }
        let data_bytes = vstd::slice::slice_subrange(bytes, PHY_HEADER_BYTES, PHY_HEADER_BYTES + len);
        if !verify_crc8(data_bytes, crc) {
            return None;
        }
        let data = vstd::slice::slice_to_vec(data_bytes);
        Some(Frame { frame_type, sequence, src, dst, data })
    }

    /// Deserialize a frame from bits (without preamble).
    pub fn from_bits(bits: &[u8]) -> (f: Option<Self>)
        ensures
            match f {
                Some(f) => frame_of_bytes(bits_bytes(bits@)) == Some(f@),
                None => frame_of_bytes(bits_bytes(bits@)) is None,
            },
    {
        let bytes = bits_to_bytes(bits);
        Self::from_bytes(bytes.as_slice())
    }
}

pub(crate) proof fn lemma_len_fields(n: usize)
    by (bit_vector)
    requires
        n < 65536,
    ensures
        ((((n >> 8usize) as u8) as usize) << 8usize) | (((n & 0xFFusize) as u8) as usize) == n,
{
}

/// A frame whose payload fits the 16-bit length field parses back from its
/// serialization.
pub proof fn lemma_frame_bytes_roundtrip(f: FrameView)
    requires
        f.data.len() < 65536,
    ensures
        frame_of_bytes(frame_bytes(f)) == Some(f),
{
    let n = f.data.len() as usize;
    lemma_len_fields(n);
    let b = frame_bytes(f);
    assert(b.subrange(7, 7 + f.data.len() as int) =~= f.data);
    match f.frame_type {
        FrameType::Data => {},
        FrameType::Ack => {},
    }
}

/// A frame whose payload fits the 16-bit length field parses back from its
/// bit serialization.
pub proof fn lemma_frame_bits_roundtrip(f: FrameView)
    requires
        f.data.len() < 65536,
    ensures
        frame_of_bytes(bits_bytes(bytes_bits(frame_bytes(f)))) == Some(f),
{
    lemma_bytes_bits_roundtrip(frame_bytes(f));
    lemma_frame_bytes_roundtrip(f);
}

} // verus!
