//! IPv4 fragmentation and reassembly.

use vstd::prelude::*;
use std::collections::HashMap;
use crate::bytes::{append_bytes, be16, be16_value, push_be16, read_be16};

verus! {

broadcast use vstd::std_specs::hash::group_hash_axioms;

/// Fragmentation information of one IPv4 fragment.
#[derive(Debug, Clone, Copy, PartialEq, Eq, Structural)]
pub struct FragmentationInfo {
    /// Identification number of the datagram.
    pub identification: u16,
    /// Whether more fragments follow this one.
    pub more_fragments: bool,
    /// Fragment offset in 8-byte units.
    pub fragment_offset: u16,
}

/// The flags/fragment-offset header word: More Fragments is bit 13, the
/// offset takes the low 13 bits.
pub open spec fn flags_word(more_fragments: bool, fragment_offset: u16) -> u16 {
    (if more_fragments {
        0x2000u16
    } else {
        0u16
    }) | (fragment_offset & 0x1FFFu16)
}

impl FragmentationInfo {
    pub fn new(identification: u16, more_fragments: bool, fragment_offset: u16) -> (f: Self)
        ensures
            f == (FragmentationInfo { identification, more_fragments, fragment_offset }),
    {
        Self { identification, more_fragments, fragment_offset }
    }

    /// Encode to the flags/fragment-offset header word.
    pub fn to_u16(&self) -> (v: u16)
        ensures
            v == flags_word(self.more_fragments, self.fragment_offset),
    {
        let mut value: u16 = 0;
        if self.more_fragments {
            value |= 0x2000u16;
        }
        assert(0u16 | 0x2000u16 == 0x2000u16) by (bit_vector);
        value |= self.fragment_offset & 0x1FFFu16;
        value
    }

    /// Decode from the flags/fragment-offset header word; the identification
    /// is not part of the word and is left 0.
    pub fn from_u16(value: u16) -> (f: Self)
        ensures
            f == (FragmentationInfo {
                identification: 0,
                more_fragments: (value & 0x2000u16) != 0,
                fragment_offset: value & 0x1FFFu16,
            }),
    {
        let more_fragments = (value & 0x2000u16) != 0;
        let fragment_offset = value & 0x1FFFu16;
        Self { identification: 0, more_fragments, fragment_offset }
    }
}

/// Decoding the header word of a fragment recovers its More Fragments flag
/// and its offset (an offset fits the 13-bit field when below 8192).
pub proof fn lemma_flags_word_roundtrip(more_fragments: bool, fragment_offset: u16)
    ensures
        (flags_word(more_fragments, fragment_offset) & 0x2000u16 != 0) == more_fragments,
        flags_word(more_fragments, fragment_offset) & 0x1FFFu16 == fragment_offset & 0x1FFFu16,
        fragment_offset < 8192 ==> flags_word(more_fragments, fragment_offset) & 0x1FFFu16
            == fragment_offset,
{
    let w = flags_word(more_fragments, fragment_offset);
    if more_fragments {
        assert(((0x2000u16 | (fragment_offset & 0x1FFFu16)) & 0x2000u16 != 0) && (0x2000u16 | (
        fragment_offset & 0x1FFFu16)) & 0x1FFFu16 == fragment_offset & 0x1FFFu16 && (
        fragment_offset < 8192 ==> fragment_offset & 0x1FFFu16 == fragment_offset)) by (bit_vector);
    } else {
        assert(((0u16 | (fragment_offset & 0x1FFFu16)) & 0x2000u16 == 0) && (0u16 | (fragment_offset
            & 0x1FFFu16)) & 0x1FFFu16 == fragment_offset & 0x1FFFu16 && (fragment_offset < 8192
            ==> fragment_offset & 0x1FFFu16 == fragment_offset)) by (bit_vector);
    }
}

/// Fragmenter splitting large IPv4 packets into fragments that fit the MTU.
pub struct IpFragmenter {
    mtu: usize,
    next_identification: u16,
}

/// Header length in bytes named by the IHL field of the first header byte.
pub open spec fn header_len(packet: Seq<u8>) -> nat {
    ((packet[0] & 0x0Fu8) as nat) * 4
}

/// Largest multiple of 8 that fits in an MTU next to an `ihl`-byte header
/// (0 when the header alone does not fit).
pub open spec fn max_fragment_data(mtu: nat, ihl: nat) -> nat {
    if mtu >= ihl {
        ((mtu - ihl) as nat / 8) * 8
    } else {
        0
    }
}

/// Number of chunks of `max` bytes (the last possibly shorter) in `len` bytes.
pub open spec fn chunk_count(len: nat, max: nat) -> nat {
    if max == 0 {
        0
    } else {
        ((len + max - 1) as nat) / max
    }
}

/// Size of chunk `i` when `len` bytes are cut into chunks of `max` bytes.
pub open spec fn chunk_size(len: nat, max: nat, i: nat) -> nat {
    if len - i * max < max {
        (len - i * max) as nat
    } else {
        max
    }
}

/// Fragment `i` of `packet`: the first 20 header bytes with total length,
/// identification and flags/offset rewritten (the checksum bytes are
/// carried over unchanged), then header bytes 20..ihl, then chunk `i` of
/// the bytes after the first 20.
pub open spec fn fragment_bytes(packet: Seq<u8>, ihl: nat, max: nat, id: u16, i: nat) -> Seq<u8> {
    let data_len = (packet.len() - 20) as nat;
    let start = i * max;
    let size = chunk_size(data_len, max, i);
    let more = start + size < data_len;
    packet.subrange(0, 2) + be16((ihl + size) as u16) + be16(id) + be16(
        flags_word(more, (start / 8) as u16),
    ) + packet.subrange(8, ihl as int) + packet.subrange((20 + start) as int, (20 + start + size) as int)
}

/// Why fragmentation was refused.
pub enum FragmentRefusal {
    /// The packet is shorter than a minimal IPv4 header.
    TooShort,
    /// The IHL field names a header shorter than 20 bytes or longer than the packet.
    BadHeaderLength,
    /// Not even 8 data bytes fit next to the header.
    MtuTooSmall,
}

/// How `fragment_packet` treats a packet under an MTU: `Ok(None)` when the
/// packet is passed on whole, `Ok(Some((ihl, max)))` when it is cut with an
/// `ihl`-byte header and `max` data bytes per fragment, or the refusal.
pub open spec fn fragment_plan(mtu: nat, packet: Seq<u8>) -> Result<Option<(nat, nat)>, FragmentRefusal> {
    if packet.len() <= mtu {
        Ok(None)
    } else if packet.len() < 20 {
        Err(FragmentRefusal::TooShort)
    } else if header_len(packet) < 20 || header_len(packet) > packet.len() {
        Err(FragmentRefusal::BadHeaderLength)
    } else if max_fragment_data(mtu, header_len(packet)) == 0 {
        Err(FragmentRefusal::MtuTooSmall)
    } else {
        Ok(Some((header_len(packet), max_fragment_data(mtu, header_len(packet)))))
    }
}

/// The fragments of `packet` with the given plan and identification.
pub open spec fn fragments_of(packet: Seq<u8>, ihl: nat, max: nat, id: u16) -> Seq<Seq<u8>> {
    Seq::new(
        chunk_count((packet.len() - 20) as nat, max),
        |i: int| fragment_bytes(packet, ihl, max, id, i as nat),
    )
}

/// Contents of a list of byte vectors.
pub open spec fn vecs_view(v: Seq<Vec<u8>>) -> Seq<Seq<u8>> {
    v.map_values(|x: Vec<u8>| x@)
}

impl IpFragmenter {
    pub closed spec fn spec_mtu(&self) -> usize {
        self.mtu
    }

    pub closed spec fn spec_next_id(&self) -> u16 {
        self.next_identification
    }

    /// Create a fragmenter for the given MTU.
    pub fn new(mtu: usize) -> (f: Self)
        ensures
            f.spec_mtu() == mtu,
            f.spec_next_id() == 0,
    {
        Self { mtu, next_identification: 0 }
    }

    /// Take the next identification number (counting up, wrapping).
    pub fn next_identification(&mut self) -> (id: u16)
        ensures
            id == old(self).spec_next_id(),
            final(self).spec_next_id() == following_id(old(self).spec_next_id()),
            final(self).spec_mtu() == old(self).spec_mtu(),
    {
        let id = self.next_identification;
        self.next_identification = self.next_identification.wrapping_add(1);
        id
    }

    /// Fragment an IPv4 packet so that every fragment fits the MTU. A packet
    /// that already fits is returned whole; otherwise the bytes after the
    /// first 20 are cut into chunks of the largest multiple of 8 that fits
    /// next to the header, each sent with a rewritten copy of the header and
    /// a fresh identification.
    pub fn fragment_packet(&mut self, packet: &[u8]) -> (r: Result<Vec<Vec<u8>>, String>)
        ensures
            final(self).spec_mtu() == old(self).spec_mtu(),
            match fragment_plan(old(self).spec_mtu() as nat, packet@) {
                Ok(None) => r matches Ok(v) && vecs_view(v@) == seq![packet@]
                    && final(self).spec_next_id() == old(self).spec_next_id(),
                Ok(Some((ihl, max))) => r matches Ok(v) && vecs_view(v@) == fragments_of(
                    packet@,
                    ihl,
                    max,
                    old(self).spec_next_id(),
                ) && final(self).spec_next_id() == (if old(self).spec_next_id() == u16::MAX {
                    0
                } else {
                    old(self).spec_next_id() + 1
                }),
                Err(_) => r is Err && final(self).spec_next_id() == old(self).spec_next_id(),
            },
            r matches Ok(v) ==> forall|i: int|
                0 <= i < v@.len() ==> (#[trigger] v@[i])@.len() <= old(self).spec_mtu() || (i == 0
                    && v@.len() == 1 && v@[i]@ == packet@),
    {
        if packet.len() <= self.mtu {
            let whole = vstd::slice::slice_to_vec(packet);
            let mut out: Vec<Vec<u8>> = Vec::new();
            out.push(whole);
            assert(vecs_view(out@) =~= seq![packet@]);
            return Ok(out);
        }
        if packet.len() < 20 {
            return Err("Invalid IP packet: too small for header".to_owned());
        }
        let ihl: usize = ((packet[0] & 0x0Fu8) as usize) * 4;
        if ihl < 20 || ihl > packet.len() {
            return Err("Invalid IP header length".to_owned());
        }
        let max_data: usize = if self.mtu >= ihl {
            ((self.mtu - ihl) / 8) * 8
        } else {
            0
        };
        if max_data == 0 {
            return Err("MTU too small for fragmentation (need at least 8 bytes of data)".to_owned());
        }
        let identification = self.next_identification();
        let data_len: usize = packet.len() - 20;
        let mut fragments: Vec<Vec<u8>> = Vec::new();
        let mut offset: usize = 0;
        let mut count: usize = 0;
        let ghost mtu = self.mtu as nat;
        proof {
            lemma_chunk_step(data_len as nat, max_data as nat, 0);
        }
        while offset < data_len
            invariant
                20 <= ihl <= packet@.len(),
                data_len == packet@.len() - 20,
                0 < max_data <= mtu - ihl,
                mtu <= usize::MAX,
                packet@.len() <= usize::MAX,
                max_data % 8 == 0,
                offset < data_len ==> offset == count * max_data,
                offset <= data_len,
                count <= offset,
                count <= chunk_count(data_len as nat, max_data as nat),
                offset < data_len ==> count < chunk_count(data_len as nat, max_data as nat),
                offset >= data_len ==> count == chunk_count(data_len as nat, max_data as nat),
                fragments@.len() == count,
                forall|j: int|
                    0 <= j < count ==> (#[trigger] fragments@[j])@ == fragment_bytes(
                        packet@,
                        ihl as nat,
                        max_data as nat,
                        identification,
                        j as nat,
                    ),
                forall|j: int| 0 <= j < count ==> (#[trigger] fragments@[j])@.len() <= mtu,
            decreases data_len - offset,
        {
            let chunk: usize = if max_data < data_len - offset {
                max_data
            } else {
                data_len - offset
            };
            let more_fragments = offset + chunk < data_len;
            let fragment_offset = #[verifier::truncate] ((offset / 8) as u16);
            assert(offset + chunk <= data_len);
            let total_length = #[verifier::truncate] ((ihl + chunk) as u16);
            let flags = FragmentationInfo::new(identification, more_fragments, fragment_offset).to_u16();
            let mut fragment: Vec<u8> = Vec::new();
            append_bytes(&mut fragment, vstd::slice::slice_subrange(packet, 0, 2));
            push_be16(&mut fragment, total_length);
            push_be16(&mut fragment, identification);
            push_be16(&mut fragment, flags);
            append_bytes(&mut fragment, vstd::slice::slice_subrange(packet, 8, ihl));
            assert(20 + offset + chunk <= packet@.len());
            let chunk_start: usize = 20 + offset;
            let chunk_end: usize = chunk_start + chunk;
            append_bytes(&mut fragment, vstd::slice::slice_subrange(packet, chunk_start, chunk_end));
            assert(chunk == chunk_size(data_len as nat, max_data as nat, count as nat));
            assert(fragment@ == fragment_bytes(packet@, ihl as nat, max_data as nat, identification, count as nat));
            fragments.push(fragment);
            proof {
                lemma_chunk_step(data_len as nat, max_data as nat, count as nat);
            }
            offset += chunk;
            count += 1;
        }
        assert(vecs_view(fragments@) =~= fragments_of(packet@, ihl as nat, max_data as nat, identification));
        Ok(fragments)
    }
}

proof fn lemma_chunk_step(len: nat, max: nat, k: nat)
    requires
        max > 0,
        k * max < len,
    ensures
        k < chunk_count(len, max),
        (k + 1) * max < len ==> k + 1 < chunk_count(len, max),
        (k + 1) * max >= len ==> k + 1 == chunk_count(len, max),
        k * max + chunk_size(len, max, k) == if (k + 1) * max < len { (k + 1) * max } else { len },
{
    assert((k + 1) * max == k * max + max) by (nonlinear_arith);
    let c = ((len + max - 1) as nat) / max;
    if (k + 1) * max < len {
        assert(k + 1 < c) by (nonlinear_arith)
            requires (k + 1) * max < len, max > 0, c == ((len + max - 1) as nat) / max;
    } else {
        assert(k + 1 == c) by (nonlinear_arith)
            requires (k + 1) * max >= len, k * max < len, max > 0, c == ((len + max - 1) as nat) / max;
    }
    assert(k < c) by (nonlinear_arith)
        requires k * max < len, max > 0, c == ((len + max - 1) as nat) / max;
}

/// Fragments collected so far for one datagram.
pub struct ReassemblyRecord {
    header: Vec<u8>,
    fragments: Vec<(u16, Vec<u8>)>,
    last_seen: bool,
}

/// Contents of a reassembly record: the header of the first fragment that
/// arrived, the (offset, payload) pairs in arrival order, and whether the
/// last fragment has been seen.
pub struct RecordView {
    pub header: Seq<u8>,
    pub fragments: Seq<(u16, Seq<u8>)>,
    pub last_seen: bool,
}

/// Contents of an (offset, payload) pair.
pub open spec fn frag_view(x: (u16, Vec<u8>)) -> (u16, Seq<u8>) {
    (x.0, x.1@)
}

impl View for ReassemblyRecord {
    type V = RecordView;

    closed spec fn view(&self) -> RecordView {
        RecordView {
            header: self.header@,
            fragments: self.fragments@.map_values(|x: (u16, Vec<u8>)| frag_view(x)),
            last_seen: self.last_seen,
        }
    }
}

/// Reassembler combining IPv4 fragments back into complete packets. Pending
/// datagrams are kept per (identification, source address).
pub struct IpReassembler {
    records: HashMap<u64, ReassemblyRecord>,
}

impl View for IpReassembler {
    type V = Map<u64, RecordView>;

    closed spec fn view(&self) -> Map<u64, RecordView> {
        self.records@.map_values(|r: ReassemblyRecord| r@)
    }
}

/// Key of a datagram: its identification and source address.
pub open spec fn datagram_key(identification: u16, source: Seq<u8>) -> u64 {
    (identification as int * 0x1_0000_0000 + source[0] as int * 0x100_0000 + source[1] as int
        * 0x1_0000 + source[2] as int * 0x100 + source[3] as int) as u64
}

/// Insert `x` into `sorted` after every element whose offset is not larger.
pub open spec fn insert_by_offset(sorted: Seq<(u16, Seq<u8>)>, x: (u16, Seq<u8>)) -> Seq<(u16, Seq<u8>)>
    decreases sorted.len(),
{
    if sorted.len() == 0 {
        seq![x]
    } else if sorted.last().0 <= x.0 {
        sorted.push(x)
    } else {
        insert_by_offset(sorted.drop_last(), x).push(sorted.last())
    }
}

/// Stable sort of fragments by offset.
pub open spec fn sort_by_offset(s: Seq<(u16, Seq<u8>)>) -> Seq<(u16, Seq<u8>)>
    decreases s.len(),
{
    if s.len() == 0 {
        s
    } else {
        insert_by_offset(sort_by_offset(s.drop_last()), s.last())
    }
}

/// Number of 8-byte units a payload covers (rounded up, kept to 16 bits).
pub open spec fn payload_units(payload: Seq<u8>) -> u16 {
    ((payload.len() + 7) / 8) as u16
}

/// Offset the fragment at position `i` of a sorted list must have: 0 for
/// the first, else where the previous one ends (16-bit wrapping).
pub open spec fn expected_offset(s: Seq<(u16, Seq<u8>)>, i: int) -> u16 {
    if i <= 0 {
        0
    } else {
        ((s[i - 1].0 + payload_units(s[i - 1].1)) % 0x1_0000) as u16
    }
}

/// The sorted fragments follow each other with no gap or overlap.
pub open spec fn fragments_contiguous(s: Seq<(u16, Seq<u8>)>) -> bool {
    forall|i: int| 0 <= i < s.len() ==> #[trigger] s[i].0 == expected_offset(s, i)
}

/// Payloads of a fragment list, concatenated in order.
pub open spec fn concat_payloads(s: Seq<(u16, Seq<u8>)>) -> Seq<u8>
    decreases s.len(),
{
    if s.len() == 0 {
        Seq::empty()
    } else {
        concat_payloads(s.drop_last()) + s.last().1
    }
}

/// The reassembled packet: the stored header and the sorted payloads, with
/// the total length set (bytes 2..4) and the flags/offset word cleared
/// (bytes 6..8) where the packet is long enough to hold them.
pub open spec fn assembled_packet(header: Seq<u8>, sorted: Seq<(u16, Seq<u8>)>) -> Seq<u8> {
    let b = header + concat_payloads(sorted);
    let b1 = if b.len() >= 4 {
        b.subrange(0, 2) + be16(b.len() as u16) + b.subrange(4, b.len() as int)
    } else {
        b
    };
    if b1.len() >= 8 {
        b1.subrange(0, 6) + seq![0u8, 0u8] + b1.subrange(8, b1.len() as int)
    } else {
        b1
    }
}

/// What processing one fragment answers.
pub enum ReassemblyOutcome {
    /// The packet is not a valid IPv4 fragment.
    Refused,
    /// The fragment was stored; its datagram is not complete yet.
    Pending,
    /// A complete packet: an unfragmented packet as it is, or a reassembled one.
    Complete(Seq<u8>),
}

/// State after, and outcome of, processing `packet` with pending state `state`.
pub open spec fn reassembly_step(state: Map<u64, RecordView>, packet: Seq<u8>) -> (Map<u64, RecordView>, ReassemblyOutcome) {
    if packet.len() < 20 {
        (state, ReassemblyOutcome::Refused)
    } else if header_len(packet) < 20 || header_len(packet) > packet.len() {
        (state, ReassemblyOutcome::Refused)
    } else {
        let ihl = header_len(packet);
        let flags = be16_value(packet[6], packet[7]);
        let more = flags & 0x2000u16 != 0;
        let offset = flags & 0x1FFFu16;
        let key = datagram_key(be16_value(packet[4], packet[5]), packet.subrange(12, 16));
        if !more && offset == 0 {
            (state, ReassemblyOutcome::Complete(packet))
        } else {
            let rec0 = if state.contains_key(key) {
                state[key]
            } else {
                RecordView {
                    header: packet.subrange(0, ihl as int),
                    fragments: Seq::empty(),
                    last_seen: false,
                }
            };
            let rec = RecordView {
                header: rec0.header,
                fragments: rec0.fragments.push((offset, packet.subrange(ihl as int, packet.len() as int))),
                last_seen: rec0.last_seen || !more,
            };
            let sorted = sort_by_offset(rec.fragments);
            if rec.last_seen && fragments_contiguous(sorted) {
                (state.remove(key), ReassemblyOutcome::Complete(assembled_packet(rec.header, sorted)))
            } else {
                (state.insert(key, rec), ReassemblyOutcome::Pending)
            }
        }
    }
}

/// `insert_by_offset` places `x` at the position `p` where the elements from
/// `p` on all have larger offsets and the one before (if any) does not.
proof fn lemma_insert_at(s: Seq<(u16, Seq<u8>)>, x: (u16, Seq<u8>), p: int)
    requires
        0 <= p <= s.len(),
        forall|j: int| p <= j < s.len() ==> (#[trigger] s[j]).0 > x.0,
        p > 0 ==> s[p - 1].0 <= x.0,
    ensures
        insert_by_offset(s, x) == s.subrange(0, p).push(x) + s.subrange(p, s.len() as int),
    decreases s.len(),
{
    if s.len() == 0 {
        assert(s.subrange(0, p).push(x) + s.subrange(p, s.len() as int) =~= seq![x]);
    } else if s.last().0 <= x.0 {
        assert(p == s.len());
        assert(s.subrange(0, p).push(x) + s.subrange(p, s.len() as int) =~= s.push(x));
    } else {
        let t = s.drop_last();
        lemma_insert_at(t, x, p);
        assert(s.subrange(0, p).push(x) + s.subrange(p, s.len() as int) =~= (t.subrange(0, p).push(
            x,
        ) + t.subrange(p, t.len() as int)).push(s.last()));
    }
}

/// Positions of `frags` in stable offset order.
fn sorted_order(frags: &Vec<(u16, Vec<u8>)>) -> (order: Vec<usize>)
    ensures
        order@.len() == frags@.len(),
        forall|i: int| 0 <= i < order@.len() ==> (#[trigger] order@[i]) < frags@.len(),
        Seq::new(order@.len(), |i: int| frag_view(frags@[order@[i] as int])) == sort_by_offset(
            frags@.map_values(|x: (u16, Vec<u8>)| frag_view(x)),
        ),
{
    let ghost fv = frags@.map_values(|x: (u16, Vec<u8>)| frag_view(x));
    let mut order: Vec<usize> = Vec::new();
    let mut k: usize = 0;
    while k < frags.len()
        invariant
            k <= frags@.len(),
            fv == frags@.map_values(|x: (u16, Vec<u8>)| frag_view(x)),
            order@.len() == k,
            forall|i: int| 0 <= i < order@.len() ==> (#[trigger] order@[i]) < k,
            Seq::new(order@.len(), |i: int| fv[order@[i] as int]) == sort_by_offset(fv.subrange(0, k as int)),
        decreases frags.len() - k,
    {
        let ghost before = Seq::new(order@.len(), |i: int| fv[order@[i] as int]);
        let key = frags[k].0;
        let mut p: usize = order.len();
        while p > 0 && frags[order[p - 1]].0 > key
            invariant
                p <= order@.len(),
                k < frags@.len(),
                key == fv[k as int].0,
                fv == frags@.map_values(|x: (u16, Vec<u8>)| frag_view(x)),
                forall|i: int| 0 <= i < order@.len() ==> (#[trigger] order@[i]) < k,
                before == Seq::new(order@.len(), |i: int| fv[order@[i] as int]),
                forall|j: int| p <= j < before.len() ==> (#[trigger] before[j]).0 > key,
            decreases p,
        {
            p -= 1;
        }
        proof {
            lemma_insert_at(before, fv[k as int], p as int);
            assert(fv.subrange(0, k + 1).drop_last() =~= fv.subrange(0, k as int));
        }
        order.insert(p, k);
        assert(Seq::new(order@.len(), |i: int| fv[order@[i] as int]) =~= before.subrange(0, p as int).push(
            fv[k as int],
        ) + before.subrange(p as int, before.len() as int));
        k += 1;
    }
    assert(fv.subrange(0, frags@.len() as int) =~= fv);
    order
}

/// Whether the fragments, taken in the given order, follow each other
/// with no gap.
fn fragments_complete(frags: &Vec<(u16, Vec<u8>)>, order: &Vec<usize>) -> (complete: bool)
    requires
        forall|i: int| 0 <= i < order@.len() ==> (#[trigger] order@[i]) < frags@.len(),
    ensures
        complete == fragments_contiguous(
            Seq::new(order@.len(), |i: int| frag_view(frags@[order@[i] as int])),
        ),
{
    let ghost s = Seq::new(order@.len(), |i: int| frag_view(frags@[order@[i] as int]));
    let mut expected: u16 = 0;
    let mut i: usize = 0;
    while i < order.len()
        invariant
            i <= order@.len(),
            s == Seq::new(order@.len(), |i: int| frag_view(frags@[order@[i] as int])),
            forall|i: int| 0 <= i < order@.len() ==> (#[trigger] order@[i]) < frags@.len(),
            expected == expected_offset(s, i as int),
            forall|j: int| 0 <= j < i ==> #[trigger] s[j].0 == expected_offset(s, j),
        decreases order.len() - i,
    {
        let frag = &frags[order[i]];
        assert(s[i as int] == frag_view(*frag));
        if frag.0 != expected {
            assert(!fragments_contiguous(s)) by {
                assert(s[i as int].0 != expected_offset(s, i as int));
            }
            return false;
        }
        let plen = frag.1.len();
        let units = #[verifier::truncate] ((plen / 8 + if plen % 8 == 0 { 0 } else { 1 }) as u16);
        assert(plen / 8 + (if plen % 8 == 0 { 0int } else { 1int }) == (plen + 7) / 8);
        expected = frag.0.wrapping_add(units);
        i += 1;
    }
    true
}

/// Header followed by the payloads in the given order, with the total
/// length set and the flags/offset word cleared.
fn assemble(header: &Vec<u8>, frags: &Vec<(u16, Vec<u8>)>, order: &Vec<usize>) -> (packet: Vec<u8>)
    requires
        forall|i: int| 0 <= i < order@.len() ==> (#[trigger] order@[i]) < frags@.len(),
    ensures
        packet@ == assembled_packet(
            header@,
            Seq::new(order@.len(), |i: int| frag_view(frags@[order@[i] as int])),
        ),
{
    let ghost s = Seq::new(order@.len(), |i: int| frag_view(frags@[order@[i] as int]));
    let mut out: Vec<u8> = Vec::new();
    append_bytes(&mut out, header.as_slice());
    let mut i: usize = 0;
    while i < order.len()
        invariant
            i <= order@.len(),
            s == Seq::new(order@.len(), |i: int| frag_view(frags@[order@[i] as int])),
            forall|i: int| 0 <= i < order@.len() ==> (#[trigger] order@[i]) < frags@.len(),
            out@ == header@ + concat_payloads(s.subrange(0, i as int)),
        decreases order.len() - i,
    {
        let ghost prev = out@;
        append_bytes(&mut out, frags[order[i]].1.as_slice());
        assert(s.subrange(0, i + 1).drop_last() =~= s.subrange(0, i as int));
        assert(out@ =~= header@ + concat_payloads(s.subrange(0, i + 1)));
        i += 1;
    }
    assert(s.subrange(0, order@.len() as int) =~= s);
    let ghost b = out@;
    if out.len() >= 4 {
        let total_length = #[verifier::truncate] (out.len() as u16);
        let ghost before = out@;
        proof {
            crate::bytes::lemma_be16_split(total_length);
        }
        out.set(2, (total_length >> 8u16) as u8);
        out.set(3, (total_length & 0xFFu16) as u8);
        assert(out@ =~= before.subrange(0, 2) + be16(before.len() as u16) + before.subrange(4, before.len() as int));
    }
    if out.len() >= 8 {
        let ghost before = out@;
        out.set(6, 0);
        out.set(7, 0);
        assert(out@ =~= before.subrange(0, 6) + seq![0u8, 0u8] + before.subrange(8, before.len() as int));
    }
    out
}

/// Key of the datagram a fragment header belongs to.
fn key_of(identification: u16, packet: &[u8]) -> (key: u64)
    requires
        packet@.len() >= 16,
    ensures
        key == datagram_key(identification, packet@.subrange(12, 16)),
{
    (identification as u64) * 0x1_0000_0000u64 + (packet[12] as u64) * 0x100_0000u64 + (packet[13]
        as u64) * 0x1_0000u64 + (packet[14] as u64) * 0x100u64 + (packet[15] as u64)
}

impl IpReassembler {
    /// Create a reassembler with no pending datagrams.
    pub fn new() -> (r: Self)
        ensures
            r@ == Map::<u64, RecordView>::empty(),
    {
        let r = Self { records: HashMap::new() };
        assert(r@ =~= Map::<u64, RecordView>::empty());
        r
    }

    /// Process a received IPv4 packet. An unfragmented packet comes back at
    /// once; a fragment is stored, and once the last fragment has been seen
    /// and the stored fragments, sorted by offset, follow each other with
    /// no gap, the reassembled packet comes back and the datagram is
    /// forgotten.
    pub fn process_fragment(&mut self, packet: &[u8]) -> (r: Result<Option<Vec<u8>>, String>)
        ensures
            final(self)@ == reassembly_step(old(self)@, packet@).0,
            match reassembly_step(old(self)@, packet@).1 {
                ReassemblyOutcome::Refused => r is Err,
                ReassemblyOutcome::Pending => r matches Ok(None),
                ReassemblyOutcome::Complete(p) => r matches Ok(Some(v)) && v@ == p,
            },
    {
        if packet.len() < 20 {
            return Err("Invalid IP packet fragment: too small for header".to_owned());
        }
        let ihl: usize = ((packet[0] & 0x0Fu8) as usize) * 4;
        if ihl < 20 || ihl > packet.len() {
            return Err("Invalid IP header length in fragment".to_owned());
        }
        let flags_offset = read_be16(packet[6], packet[7]);
        let frag_info = FragmentationInfo::from_u16(flags_offset);
        let identification = read_be16(packet[4], packet[5]);
        let key = key_of(identification, packet);
        if !frag_info.more_fragments && frag_info.fragment_offset == 0 {
            return Ok(Some(vstd::slice::slice_to_vec(packet)));
        }
        let ghost state = self@;
        let mut record = match self.records.remove(&key) {
            Some(rec) => rec,
            None => ReassemblyRecord {
                header: vstd::slice::slice_to_vec(vstd::slice::slice_subrange(packet, 0, ihl)),
                fragments: Vec::new(),
                last_seen: false,
            },
        };
        assert(self@ == state.remove(key));
        let payload = vstd::slice::slice_to_vec(vstd::slice::slice_subrange(packet, ihl, packet.len()));
        record.fragments.push((frag_info.fragment_offset, payload));
        if !frag_info.more_fragments {
            record.last_seen = true;
        }
        assert(record@.fragments =~= (if state.contains_key(key) {
            state[key].fragments
        } else {
            Seq::empty()
        }).push((frag_info.fragment_offset, packet@.subrange(ihl as int, packet@.len() as int))));
        if record.last_seen {
            let order = sorted_order(&record.fragments);
            if fragments_complete(&record.fragments, &order) {
                let reassembled = assemble(&record.header, &record.fragments, &order);
                return Ok(Some(reassembled));
            }
        }
        self.records.insert(key, record);
        assert(self@ =~= state.insert(key, record@));
        Ok(None)
    }
}

/// State and last outcome after processing `packets` in order.
pub open spec fn run_reassembly(state: Map<u64, RecordView>, packets: Seq<Seq<u8>>) -> (Map<u64, RecordView>, ReassemblyOutcome)
    decreases packets.len(),
{
    if packets.len() == 0 {
        (state, ReassemblyOutcome::Pending)
    } else {
        reassembly_step(run_reassembly(state, packets.drop_last()).0, packets.last())
    }
}

/// A list whose offsets never decrease is its own stable sort.
proof fn lemma_sort_sorted(s: Seq<(u16, Seq<u8>)>)
    requires
        forall|i: int, j: int| 0 <= i < j < s.len() ==> s[i].0 <= s[j].0,
    ensures
        sort_by_offset(s) == s,
    decreases s.len(),
{
    if s.len() > 0 {
        lemma_sort_sorted(s.drop_last());
        assert(s.drop_last().push(s.last()) =~= s);
    }
}

/// Arithmetic of cutting `d` data bytes into chunks of `max` (a positive
/// multiple of 8) bytes: every chunk before the last is full and is
/// followed by more data, the last one ends exactly at `d`.
pub(crate) proof fn lemma_chunk_shape(d: nat, max: nat, i: nat)
    requires
        max > 0,
        i < chunk_count(d, max),
    ensures
        i * max < d,
        i + 1 < chunk_count(d, max) ==> chunk_size(d, max, i) == max && i * max + max < d,
        i + 1 == chunk_count(d, max) ==> i * max + chunk_size(d, max, i) == d,
        (i * max + chunk_size(d, max, i) < d) == (i + 1 < chunk_count(d, max)),
        chunk_size(d, max, i) <= max,
{
    let c = chunk_count(d, max);
    assert(i * max < d) by (nonlinear_arith)
        requires
            i < c,
            max > 0,
            c == ((d + max - 1) as nat) / max,
    ;
    lemma_chunk_step(d, max, i);
}

/// The facts about fragment `i` of a packet with a 20-byte header that the
/// reassembler reads.
proof fn lemma_fragment_fields(packet: Seq<u8>, max: nat, id: u16, i: nat)
    requires
        packet.len() >= 20,
        packet.len() <= 65535,
        max > 0,
        max % 8 == 0,
        i < chunk_count((packet.len() - 20) as nat, max),
    ensures
        ({
            let d = (packet.len() - 20) as nat;
            let f = fragment_bytes(packet, 20, max, id, i);
            let size = chunk_size(d, max, i);
            let more = i + 1 < chunk_count(d, max);
            &&& f.len() == 20 + size
            &&& f[0] == packet[0]
            &&& be16_value(f[4], f[5]) == id
            &&& (be16_value(f[6], f[7]) & 0x2000u16 != 0) == more
            &&& be16_value(f[6], f[7]) & 0x1FFFu16 == i * (max / 8)
            &&& i * (max / 8) < 8192
            &&& f.subrange(12, 16) == packet.subrange(12, 16)
            &&& f.subrange(20, f.len() as int) == packet.subrange(
                (20 + i * max) as int,
                (20 + i * max + size) as int,
            )
        }),
{
    let d = (packet.len() - 20) as nat;
    let f = fragment_bytes(packet, 20, max, id, i);
    let size = chunk_size(d, max, i);
    lemma_chunk_shape(d, max, i);
    let more = i * max + size < d;
    let m = max / 8;
    assert(i * max == 8 * (i * m)) by (nonlinear_arith)
        requires
            max == 8 * m,
    ;
    assert(i * m < 8192);
    let off = ((i * max) / 8) as u16;
    assert(off == i * m);
    lemma_flags_word_roundtrip(more, off);
    crate::bytes::lemma_be16_roundtrip(id);
    crate::bytes::lemma_be16_roundtrip(flags_word(more, off));
    assert(f[4] == be16(id)[0] && f[5] == be16(id)[1]);
    assert(f[6] == be16(flags_word(more, off))[0] && f[7] == be16(flags_word(more, off))[1]);
    assert(f.subrange(12, 16) =~= packet.subrange(12, 16));
    assert(f.subrange(20, f.len() as int) =~= packet.subrange(
        (20 + i * max) as int,
        (20 + i * max + size) as int,
    ));
}

/// The (offset, payload) pairs the reassembler holds after the first `j`
/// fragments.
pub open spec fn collected_fragments(packet: Seq<u8>, max: nat, j: nat) -> Seq<(u16, Seq<u8>)> {
    let d = (packet.len() - 20) as nat;
    Seq::new(
        j,
        |i: int|
            (
                (i * (max / 8)) as u16,
                packet.subrange(20 + i * max, 20 + i * max + chunk_size(d, max, i as nat)),
            ),
    )
}

/// Payloads of the first `j` fragments laid end to end are the first
/// `min(j * max, d)` data bytes.
#[verifier::spinoff_prover]
pub(crate) proof fn lemma_collected_concat(packet: Seq<u8>, max: nat, j: nat)
    requires
        packet.len() >= 20,
        max > 0,
        j <= chunk_count((packet.len() - 20) as nat, max),
    ensures
        j < chunk_count((packet.len() - 20) as nat, max) ==> concat_payloads(
            collected_fragments(packet, max, j),
        ) == packet.subrange(20, (20 + j * max) as int),
        j == chunk_count((packet.len() - 20) as nat, max) ==> concat_payloads(
            collected_fragments(packet, max, j),
        ) == packet.subrange(20, packet.len() as int),
    decreases j,
{
    let d = (packet.len() - 20) as nat;
    let s = collected_fragments(packet, max, j);
    if j == 0 {
        assert(packet.subrange(20, 20) =~= Seq::<u8>::empty());
        if chunk_count(d, max) == 0 {
            assert(d == 0) by (nonlinear_arith)
                requires
                    max > 0,
                    ((d + max - 1) as nat) / max == 0,
            ;
        }
    } else {
        let i = (j - 1) as nat;
        lemma_collected_concat(packet, max, i);
        lemma_chunk_shape(d, max, i);
        assert(s.drop_last() =~= collected_fragments(packet, max, i));
        assert(i * max + max == j * max) by (nonlinear_arith)
            requires
                i + 1 == j,
        ;
        let size = chunk_size(d, max, i);
        assert(packet.subrange(20, (20 + i * max) as int) + packet.subrange(
            (20 + i * max) as int,
            (20 + i * max + size) as int,
        ) =~= packet.subrange(20, (20 + i * max + size) as int));
    }
}

/// What the reassembler does with fragment `i` of a packet, given its
/// pending state `st`: the fragment is appended to the datagram's record
/// (created from the fragment's header when absent); for a fragment that is
/// not the last this answers Pending.
pub(crate) proof fn lemma_step_fragment(st: Map<u64, RecordView>, packet: Seq<u8>, max: nat, id: u16, i: nat)
    requires
        packet.len() >= 20,
        packet.len() <= 65535,
        packet[0] & 0x0Fu8 == 5,
        max >= 8,
        max % 8 == 0,
        i < chunk_count((packet.len() - 20) as nat, max),
        i + 1 < chunk_count((packet.len() - 20) as nat, max) || i >= 1,
    ensures
        ({
            let d = (packet.len() - 20) as nat;
            let f = fragment_bytes(packet, 20, max, id, i);
            let key = datagram_key(id, packet.subrange(12, 16));
            let more = i + 1 < chunk_count(d, max);
            let rec0 = if st.contains_key(key) {
                st[key]
            } else {
                RecordView { header: f.subrange(0, 20), fragments: Seq::empty(), last_seen: false }
            };
            let rec = RecordView {
                header: rec0.header,
                fragments: rec0.fragments.push(
                    (
                        (i * (max / 8)) as u16,
                        packet.subrange((20 + i * max) as int, (20 + i * max + chunk_size(d, max, i)) as int),
                    ),
                ),
                last_seen: rec0.last_seen || !more,
            };
            let sorted = sort_by_offset(rec.fragments);
            reassembly_step(st, f) == if rec.last_seen && fragments_contiguous(sorted) {
                (st.remove(key), ReassemblyOutcome::Complete(assembled_packet(rec.header, sorted)))
            } else {
                (st.insert(key, rec), ReassemblyOutcome::Pending)
            }
        }),
{
    let d = (packet.len() - 20) as nat;
    let f = fragment_bytes(packet, 20, max, id, i);
    lemma_fragment_fields(packet, max, id, i);
    lemma_chunk_shape(d, max, i);
    let more = i + 1 < chunk_count(d, max);
    assert(header_len(f) == 20);
    let flags = be16_value(f[6], f[7]);
    assert((flags & 0x2000u16 != 0) == more);
    assert(flags & 0x1FFFu16 == ((i * (max / 8)) as u16));
    if i >= 1 {
        assert(i * (max / 8) >= 1) by (nonlinear_arith)
            requires
                i >= 1,
                max >= 8,
        ;
    }
    assert(!(!more && flags & 0x1FFFu16 == 0));
}

/// Processing the first `j` fragments (not yet the last) of a fresh
/// datagram leaves one pending record holding them, and answers Pending.
proof fn lemma_reassembly_prefix(
    state: Map<u64, RecordView>,
    packet: Seq<u8>,
    max: nat,
    id: u16,
    j: nat,
)
    requires
        packet.len() >= 20,
        packet.len() <= 65535,
        packet[0] & 0x0Fu8 == 5,
        max >= 8,
        max % 8 == 0,
        1 <= j < chunk_count((packet.len() - 20) as nat, max),
        !state.contains_key(datagram_key(id, packet.subrange(12, 16))),
    ensures
        run_reassembly(state, fragments_of(packet, 20, max, id).subrange(0, j as int)) == (
            state.insert(
                datagram_key(id, packet.subrange(12, 16)),
                RecordView {
                    header: fragment_bytes(packet, 20, max, id, 0).subrange(0, 20),
                    fragments: collected_fragments(packet, max, j),
                    last_seen: false,
                },
            ),
            ReassemblyOutcome::Pending,
        ),
    decreases j,
{
    let d = (packet.len() - 20) as nat;
    let frags = fragments_of(packet, 20, max, id);
    let key = datagram_key(id, packet.subrange(12, 16));
    let i = (j - 1) as nat;
    let f = fragment_bytes(packet, 20, max, id, i);
    let pre = frags.subrange(0, j as int);
    assert(pre.drop_last() =~= frags.subrange(0, i as int));
    assert(pre.last() == f);
    let st = run_reassembly(state, pre.drop_last()).0;
    lemma_step_fragment(st, packet, max, id, i);
    let chunk = packet.subrange((20 + i * max) as int, (20 + i * max + chunk_size(d, max, i)) as int);
    assert(collected_fragments(packet, max, j) =~= collected_fragments(packet, max, i).push(
        ((i * (max / 8)) as u16, chunk),
    ));
    if i == 0 {
        assert(frags.subrange(0, 0) =~= Seq::<Seq<u8>>::empty());
        assert(st == state);
        assert(collected_fragments(packet, max, 0) =~= Seq::<(u16, Seq<u8>)>::empty());
    } else {
        lemma_reassembly_prefix(state, packet, max, id, i);
        assert(st.contains_key(key));
    }
}

/// The (offset, payload) pairs of all fragments are in increasing offset
/// order and follow each other with no gap.
pub(crate) proof fn lemma_collected_contiguous(packet: Seq<u8>, max: nat, id: u16)
    requires
        packet.len() >= 20,
        packet.len() <= 65535,
        max >= 8,
        max % 8 == 0,
    ensures
        ({
            let all = collected_fragments(packet, max, chunk_count((packet.len() - 20) as nat, max));
            &&& sort_by_offset(all) == all
            &&& fragments_contiguous(all)
        }),
{
    let d = (packet.len() - 20) as nat;
    let k = chunk_count(d, max);
    let all = collected_fragments(packet, max, k);
    assert forall|a: int, b: int| 0 <= a < b < all.len() implies all[a].0 <= all[b].0 by {
        assert(a * (max / 8) <= b * (max / 8)) by (nonlinear_arith)
            requires
                a < b,
                a >= 0,
        ;
        lemma_fragment_fields(packet, max, id, b as nat);
    }
    lemma_sort_sorted(all);
    let m = max / 8;
    assert forall|a: int| 0 <= a < all.len() implies #[trigger] all[a].0 == expected_offset(all, a) by {
        lemma_fragment_fields(packet, max, id, a as nat);
        assert(a * m < 8192);
        assert(all[a].0 == a * m);
        if a > 0 {
            let b = (a - 1) as nat;
            lemma_chunk_shape(d, max, b);
            lemma_fragment_fields(packet, max, id, b);
            assert(b * m < 8192);
            assert(all[a - 1].0 == b * m);
            let p = all[a - 1].1;
            assert(p.len() == max);
            assert((max + 7) / 8 == m) by (nonlinear_arith)
                requires
                    max % 8 == 0,
                    m == max / 8,
            ;
            assert(payload_units(p) == m);
            assert(b * m + m == a * m) by (nonlinear_arith)
                requires
                    b + 1 == a,
            ;
            assert(expected_offset(all, a) == ((b * m + m) % 0x1_0000) as u16);
        } else {
            assert(a * m == 0) by (nonlinear_arith)
                requires
                    a == 0,
            ;
        }
    }
}

/// The identification number after `id`: one more, wrapping to zero.
pub open spec fn following_id(id: u16) -> u16 {
    if id == u16::MAX {
        0
    } else {
        (id + 1) as u16
    }
}

/// The identification number `k` numbers after `id`.
pub open spec fn id_after(id: u16, k: nat) -> u16
    decreases k,
{
    if k == 0 {
        id
    } else {
        following_id(id_after(id, (k - 1) as nat))
    }
}

/// Identification numbers count up modulo 2^16: `k` numbers after `id`
/// comes `(id + k) mod 65536`; from a new fragmenter (which starts at
/// zero) the `k`-th call gives `k mod 65536`.
pub proof fn lemma_identification_counts(id: u16, k: nat)
    ensures
        id_after(id, k) as int == (id + k) % 0x1_0000,
    decreases k,
{
    if k > 0 {
        lemma_identification_counts(id, (k - 1) as nat);
        let prev = id_after(id, (k - 1) as nat) as int;
        let a = id + k - 1;
        vstd::arithmetic::div_mod::lemma_fundamental_div_mod(a, 0x1_0000);
        let q = a / 0x1_0000;
        if prev == 0xFFFF {
            vstd::arithmetic::div_mod::lemma_fundamental_div_mod_converse(a + 1, 0x1_0000, q + 1, 0);
        } else {
            vstd::arithmetic::div_mod::lemma_fundamental_div_mod_converse(a + 1, 0x1_0000, q, prev + 1);
        }
    }
}

/// Fragmenting a packet (20-byte header, at most 65535 bytes) and feeding
/// all its fragments, in order, to a reassembler with nothing pending for
/// that datagram gives back a packet whose payload is the original payload,
/// and leaves the pending state as it was.
#[verifier::spinoff_prover]
#[verifier::rlimit(30)]
pub proof fn lemma_fragment_then_reassemble(
    state: Map<u64, RecordView>,
    mtu: nat,
    packet: Seq<u8>,
    id: u16,
)
    requires
        fragment_plan(mtu, packet) is Ok,
        fragment_plan(mtu, packet)->Ok_0 is Some,
        header_len(packet) == 20,
        packet.len() <= 65535,
        !state.contains_key(datagram_key(id, packet.subrange(12, 16))),
    ensures
        ({
            let max = max_fragment_data(mtu, 20);
            let r = run_reassembly(state, fragments_of(packet, 20, max, id));
            &&& r.0 == state
            &&& r.1 matches ReassemblyOutcome::Complete(q)
            &&& q.len() == packet.len()
            &&& q.subrange(20, q.len() as int) == packet.subrange(20, packet.len() as int)
        }),
{
    let max = max_fragment_data(mtu, 20);
    let d = (packet.len() - 20) as nat;
    let k = chunk_count(d, max);
    let frags = fragments_of(packet, 20, max, id);
    let key = datagram_key(id, packet.subrange(12, 16));
    assert(packet[0] & 0x0Fu8 == 5);
    assert(max % 8 == 0 && max >= 8 && max <= mtu - 20) by (nonlinear_arith)
        requires
            max == ((mtu - 20) as nat / 8) * 8,
            max > 0,
            mtu >= 20,
    ;
    assert(k >= 2) by (nonlinear_arith)
        requires
            d > max,
            max > 0,
            k == ((d + max - 1) as nat) / max,
    ;
    let i = (k - 1) as nat;
    lemma_reassembly_prefix(state, packet, max, id, i);
    assert(frags.drop_last() =~= frags.subrange(0, i as int));
    let header = fragment_bytes(packet, 20, max, id, 0).subrange(0, 20);
    let state1 = state.insert(
        key,
        RecordView { header, fragments: collected_fragments(packet, max, i), last_seen: false },
    );
    lemma_step_fragment(state1, packet, max, id, i);
    let all = collected_fragments(packet, max, k);
    let chunk = packet.subrange((20 + i * max) as int, (20 + i * max + chunk_size(d, max, i)) as int);
    assert(all =~= collected_fragments(packet, max, i).push(((i * (max / 8)) as u16, chunk)));
    lemma_collected_contiguous(packet, max, id);
    lemma_collected_concat(packet, max, k);
    assert(state1.remove(key) =~= state);
    let body = header + concat_payloads(all);
    assert(body.subrange(20, body.len() as int) =~= packet.subrange(20, packet.len() as int));
    let q = assembled_packet(header, all);
    assert(q.subrange(20, q.len() as int) =~= body.subrange(20, body.len() as int));
}

} // verus!
