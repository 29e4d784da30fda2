//! Decisions of the frame decoder once a preamble has been found: whether
//! the decoded header is acceptable, how many bits the frame needs, and
//! what to make of the decoded frame bits.

use vstd::prelude::*;
use crate::phy::crc::{bits_bytes, bytes_bits, lemma_bytes_bits_roundtrip};
use crate::phy::frame::{
    frame_bytes, frame_of_bytes, header_of_bytes, lemma_frame_bits_roundtrip, lemma_len_fields,
    len_of, Frame, FrameType, FrameView, PHY_HEADER_BYTES,
};

verus! {

/// What the decoder makes of the header of a candidate frame.
pub enum HeaderCheck {
    /// The header does not parse: search again past the header.
    Unparsable,
    /// An empty data frame, or more data than allowed: search again from
    /// the next sample.
    BadLength,
    /// Decode the whole frame: `total_bits` bits, for destination `dst`.
    Valid { total_bits: usize, dst: u8 },
}

/// Check of the decoded header bits of a candidate frame.
pub open spec fn header_check_of(bits: Seq<u8>, max_frame_bytes: usize) -> HeaderCheck {
    match header_of_bytes(bits_bytes(bits)) {
        None => HeaderCheck::Unparsable,
        Some((len, _crc, t, _seq, _src, dst)) => if (t == FrameType::Data && len == 0) || len
            > max_frame_bytes {
            HeaderCheck::BadLength
        } else {
            HeaderCheck::Valid { total_bits: ((PHY_HEADER_BYTES + len) * 8) as usize, dst }
        },
    }
}

/// A length field holds at most 16 bits.
proof fn lemma_len_field_bound(hi: u8, lo: u8)
    ensures
        len_of(hi, lo) <= 0xFFFF,
{
    assert(((hi as usize) << 8usize) | (lo as usize) <= 0xFFFF) by (bit_vector);
}

/// Check the decoded header bits of a candidate frame.
pub fn check_header(header_bits: &[u8], max_frame_bytes: usize) -> (c: HeaderCheck)
    ensures
        c == header_check_of(header_bits@, max_frame_bytes),
{
    match Frame::parse_header(header_bits) {
        None => HeaderCheck::Unparsable,
        Some((len, _crc, frame_type, _seq, _src, dst)) => {
            proof {
                let b = bits_bytes(header_bits@);
                lemma_len_field_bound(b[0], b[1]);
            }
            if (frame_type == FrameType::Data && len == 0) || len > max_frame_bytes {
                HeaderCheck::BadLength
            } else {
                HeaderCheck::Valid { total_bits: (PHY_HEADER_BYTES + len) * 8, dst }
            }
        },
    }
}

/// How the decoder judges the header of a frame sent as `frame_bytes`:
/// a frame whose data fits `max_frame_bytes` is accepted, and the bits it
/// then asks for are exactly the frame's bits, with its destination, for
/// every frame type and length, except a data frame with no data; an empty
/// data frame, and a frame with more data than allowed, are refused for
/// their length. In particular every ACK frame (which carries no data) is
/// accepted.
pub proof fn lemma_sent_header_check(f: FrameView, max_frame_bytes: usize)
    requires
        f.data.len() < 65536,
    ensures
        ({
            let sent = bytes_bits(frame_bytes(f));
            let c = header_check_of(sent.subrange(0, (PHY_HEADER_BYTES * 8) as int), max_frame_bytes);
            &&& f.data.len() <= max_frame_bytes && !(f.frame_type == FrameType::Data && f.data.len() == 0)
                ==> (c matches HeaderCheck::Valid { total_bits, dst } && total_bits == sent.len() && dst
                == f.dst)
            &&& f.frame_type == FrameType::Data && f.data.len() == 0 ==> c is BadLength
            &&& f.data.len() > max_frame_bytes ==> c is BadLength
            &&& f.frame_type == FrameType::Ack && f.data.len() <= max_frame_bytes ==> c is Valid
        }),
{
    let b = frame_bytes(f);
    let h = b.subrange(0, 7);
    let sent = bytes_bits(b);
    assert(sent.subrange(0, 56) =~= bytes_bits(h));
    lemma_bytes_bits_roundtrip(h);
    lemma_len_fields(f.data.len() as usize);
    assert(h[0] == b[0] && h[1] == b[1] && h[3] == b[3] && h[6] == b[6]);
    assert(len_of(h[0], h[1]) == f.data.len());
    match f.frame_type {
        FrameType::Data => {},
        FrameType::Ack => {},
    }
}

/// What the decoder makes of the decoded bits of a whole candidate frame.
pub enum FrameCheck {
    /// The line decoder gave fewer bits than the frame needs.
    Truncated,
    /// The header names another destination.
    NotForUs,
    /// The frame does not parse or fails its CRC.
    Corrupt,
    /// A frame for this node.
    Accepted(Frame),
}

/// Contents of a frame check.
pub enum FrameCheckView {
    Truncated,
    NotForUs,
    Corrupt,
    Accepted(FrameView),
}

pub open spec fn frame_check_view(c: FrameCheck) -> FrameCheckView {
    match c {
        FrameCheck::Truncated => FrameCheckView::Truncated,
        FrameCheck::NotForUs => FrameCheckView::NotForUs,
        FrameCheck::Corrupt => FrameCheckView::Corrupt,
        FrameCheck::Accepted(f) => FrameCheckView::Accepted(f@),
    }
}

/// Check of the decoded bits of a frame that needs `total_bits` bits and
/// whose header names `dst`, at a node with address `local_addr`.
pub open spec fn frame_check_of(bits: Seq<u8>, total_bits: usize, dst: u8, local_addr: u8) -> FrameCheckView {
    if bits.len() < total_bits {
        FrameCheckView::Truncated
    } else if dst != local_addr {
        FrameCheckView::NotForUs
    } else {
        match frame_of_bytes(bits_bytes(bits)) {
            Some(f) => FrameCheckView::Accepted(f),
            None => FrameCheckView::Corrupt,
        }
    }
}

/// Check the decoded bits of a whole candidate frame.
pub fn check_frame(frame_bits: &[u8], total_bits: usize, dst: u8, local_addr: u8) -> (c: FrameCheck)
    ensures
        frame_check_view(c) == frame_check_of(frame_bits@, total_bits, dst, local_addr),
{
    if frame_bits.len() < total_bits {
        return FrameCheck::Truncated;
    }
    if dst != local_addr {
        return FrameCheck::NotForUs;
    }
    match Frame::from_bits(frame_bits) {
        Some(frame) => FrameCheck::Accepted(frame),
        None => FrameCheck::Corrupt,
    }
}

/// A frame received whole, with the bits its header asks for, is accepted
/// as exactly the frame that was sent when it is addressed to this node,
/// and set aside as not for us otherwise; with a bit missing it is
/// truncated.
pub proof fn lemma_sent_frame_check(f: FrameView, local_addr: u8)
    requires
        f.data.len() < 65536,
    ensures
        ({
            let sent = bytes_bits(frame_bytes(f));
            &&& f.dst == local_addr ==> frame_check_of(sent, sent.len() as usize, f.dst, local_addr)
                == FrameCheckView::Accepted(f)
            &&& f.dst != local_addr ==> frame_check_of(sent, sent.len() as usize, f.dst, local_addr)
                is NotForUs
            &&& sent.len() > 0 ==> frame_check_of(sent.drop_last(), sent.len() as usize, f.dst, local_addr)
                is Truncated
        }),
{
    lemma_frame_bits_roundtrip(f);
}

} // verus!
