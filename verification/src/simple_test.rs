//! Bit-level building blocks of the PSK800RC2 test modem: a rate-1/2
//! convolutional encoder, a simplified decoder for it, and a symbol
//! interleaver (a fixed-length delay line).

use vstd::prelude::*;

verus! {

/// Parity (xor) of the lowest `n` bits of `x`.
pub open spec fn bit_parity(x: u32, n: nat) -> u32
    decreases n,
{
    if n == 0 {
        0
    } else {
        bit_parity(x, (n - 1) as nat) ^ ((x >> ((n - 1) as u32)) & 1u32)
    }
}

/// Parity of all 32 bits of `x`: 1 when an odd number of bits is set.
pub open spec fn parity32(x: u32) -> u32 {
    bit_parity(x, 32)
}

proof fn lemma_clear_lowest_bit(t: u32)
    by (bit_vector)
    requires
        t != 0,
    ensures
        bit_parity(t & (t - 1) as u32, 32) == bit_parity(t, 32) ^ 1u32,
        t & ((t - 1) as u32) < t,
{
}

proof fn lemma_parity_range(x: u32)
    by (bit_vector)
    ensures
        bit_parity(x, 32) == 0u32 || bit_parity(x, 32) == 1u32,
        x == 0 ==> bit_parity(x, 32) == 0u32,
{
}

/// Simplified convolutional (Viterbi) encoder.
#[derive(Clone)]
pub struct ViterbiEncoder {
    k: usize,
    poly1: u32,
    poly2: u32,
    state: u32,
}

/// Shift register after shifting in `bit`, kept to `k - 1` bits.
pub open spec fn shifted_state(state: u32, bit: u8, k: usize) -> u32 {
    ((state << 1u32) | (bit as u32)) & (((1u32 << ((k - 1) as u32)) - 1) as u32)
}

/// The two parity bits the encoder emits once its register holds `state`.
pub open spec fn encoder_output(state: u32, polys: (u32, u32)) -> Seq<u8> {
    seq![parity32(state & polys.0) as u8, parity32(state & polys.1) as u8]
}

/// The output pairs of encoding `bits`, one call per bit, from register
/// `state`.
pub open spec fn encoder_run(state: u32, k: usize, polys: (u32, u32), bits: Seq<u8>) -> Seq<Seq<u8>>
    decreases bits.len(),
{
    if bits.len() == 0 {
        Seq::empty()
    } else {
        let next = shifted_state(state, bits[0], k);
        seq![encoder_output(next, polys)] + encoder_run(next, k, polys, bits.skip(1))
    }
}

/// The register after encoding `bits` from `state`.
pub open spec fn encoder_state_after(state: u32, k: usize, bits: Seq<u8>) -> u32
    decreases bits.len(),
{
    if bits.len() == 0 {
        state
    } else {
        encoder_state_after(shifted_state(state, bits[0], k), k, bits.skip(1))
    }
}

/// Encoding streams: encoding `a` then `b` gives the outputs of `a`
/// followed by those of `b` from the register `a` left. In particular,
/// since `reset` and `new` both leave the register at zero (with the same
/// constraint length and polynomials), any bits encoded after a reset give
/// `encoder_run(0, ..)`, exactly what a fresh encoder gives.
pub proof fn lemma_encoder_run_streams(state: u32, k: usize, polys: (u32, u32), a: Seq<u8>, b: Seq<u8>)
    ensures
        encoder_run(state, k, polys, a + b) == encoder_run(state, k, polys, a) + encoder_run(
            encoder_state_after(state, k, a),
            k,
            polys,
            b,
        ),
        encoder_state_after(state, k, a + b) == encoder_state_after(
            encoder_state_after(state, k, a),
            k,
            b,
        ),
    decreases a.len(),
{
    if a.len() == 0 {
        assert(a + b =~= b);
    } else {
        let next = shifted_state(state, a[0], k);
        assert((a + b).skip(1) =~= a.skip(1) + b);
        assert((a + b)[0] == a[0]);
        lemma_encoder_run_streams(next, k, polys, a.skip(1), b);
        assert(encoder_run(state, k, polys, a + b) =~= encoder_run(state, k, polys, a) + encoder_run(
            encoder_state_after(state, k, a),
            k,
            polys,
            b,
        ));
    }
}

impl ViterbiEncoder {
    pub closed spec fn spec_k(&self) -> usize {
        self.k
    }

    pub closed spec fn spec_polys(&self) -> (u32, u32) {
        (self.poly1, self.poly2)
    }

    pub closed spec fn spec_state(&self) -> u32 {
        self.state
    }

    /// Encoder with constraint length `k` and generator polynomials
    /// `poly1`, `poly2`, starting from the zero state.
    pub fn new(k: usize, poly1: u32, poly2: u32) -> (e: Self)
        ensures
            e.spec_k() == k,
            e.spec_polys() == (poly1, poly2),
            e.spec_state() == 0,
    {
        Self { k, poly1, poly2, state: 0 }
    }

    /// Shift in one bit and emit the two parity bits of the register
    /// masked by each polynomial.
    pub fn encode(&mut self, bit: u8) -> (out: [u8; 2])
        requires
            1 <= old(self).spec_k() <= 32,
        ensures
            final(self).spec_k() == old(self).spec_k(),
            final(self).spec_polys() == old(self).spec_polys(),
            final(self).spec_state() == shifted_state(old(self).spec_state(), bit, old(self).spec_k()),
            out@ == seq![
                parity32(final(self).spec_state() & final(self).spec_polys().0) as u8,
                parity32(final(self).spec_state() & final(self).spec_polys().1) as u8,
            ],
            seq![out@] == encoder_run(old(self).spec_state(), old(self).spec_k(), old(self).spec_polys(), seq![bit]),
    {
        let shift = (self.k - 1) as u32;
        assert(shift < 32 ==> (1u32 << shift) >= 1) by (bit_vector);
        self.state = (self.state << 1u32) | (bit as u32);
        self.state &= (1u32 << shift) - 1;
        let out1 = self.parity_check(self.poly1);
        let out2 = self.parity_check(self.poly2);
        let out = [out1, out2];
        assert(out@ =~= seq![out1, out2]);
        assert(seq![bit].skip(1) =~= Seq::<u8>::empty());
        assert(seq![bit][0] == bit);
        assert(encoder_run(self.state, self.k, (self.poly1, self.poly2), Seq::<u8>::empty()) =~= Seq::<
            Seq<u8>,
        >::empty());
        assert(encoder_output(self.state, (self.poly1, self.poly2)) =~= out@);
        assert(seq![out@] =~= encoder_run(old(self).state, self.k, (self.poly1, self.poly2), seq![bit]));
        out
    }

    /// Parity of the register masked by `poly`.
    fn parity_check(&self, poly: u32) -> (p: u8)
        ensures
            p == parity32(self.state & poly) as u8,
    {
        let mut temp = self.state & poly;
        let mut parity: u8 = 0;
        proof {
            lemma_parity_range(temp);
            let pt = bit_parity(temp, 32);
            assert(0u32 ^ pt == pt) by (bit_vector);
        }
        while temp != 0
            invariant
                parity == 0 || parity == 1,
                (parity as u32) ^ parity32(temp) == parity32(self.state & poly),
            decreases temp,
        {
            proof {
                lemma_clear_lowest_bit(temp);
                lemma_parity_range(temp);
                lemma_parity_range(temp & ((temp - 1) as u32));
                let t = temp;
                let q = parity as u32;
                assert(q ^ bit_parity(t, 32) == (q ^ 1u32) ^ (bit_parity(t, 32) ^ 1u32)) by (bit_vector);
                assert((parity ^ 1u8) as u32 == (parity as u32) ^ 1u32) by (bit_vector);
                assert((parity == 0u8 || parity == 1u8) ==> ((parity ^ 1u8) == 0u8 || (parity ^ 1u8) == 1u8)) by (bit_vector);
            }
            parity ^= 1;
            temp &= temp - 1;
        }
        proof {
            lemma_parity_range(temp);
            lemma_parity_range(self.state & poly);
            let q = parity as u32;
            assert(q ^ 0u32 == q) by (bit_vector);
        }
        parity
    }

    /// Return the register to the zero state.
    pub fn reset(&mut self)
        ensures
            final(self).spec_k() == old(self).spec_k(),
            final(self).spec_polys() == old(self).spec_polys(),
            final(self).spec_state() == 0,
    {
        self.state = 0;
    }
}

/// Whether call number `i` (from zero) after `received` symbol pairs
/// yields a bit, for a traceback length `traceback`.
pub open spec fn decoder_yields(received: nat, traceback: nat, i: nat) -> bool {
    received + i + 1 >= traceback
}

/// After a reset (or on a new decoder) with constraint length `k`, no
/// received pairs are counted and the traceback length is `5 * k`: the
/// first `5 * k - 1` calls yield nothing and every call from then on
/// yields a bit.
pub proof fn lemma_decoder_warmup(k: nat, i: nat)
    requires
        k >= 1,
    ensures
        i < 5 * k - 1 ==> !decoder_yields(0, 5 * k, i),
        i >= 5 * k - 1 ==> decoder_yields(0, 5 * k, i),
{
}

/// Simplified Viterbi decoder: it waits until `traceback_length` symbol
/// pairs have been received and then decides each bit from whether the two
/// symbols of the pair differ.
#[derive(Clone)]
pub struct ViterbiDecoder {
    k: usize,
    poly1: u32,
    poly2: u32,
    states: Vec<i32>,
    prev_states: Vec<usize>,
    traceback_length: usize,
    symbol_buffer: Vec<[u8; 2]>,
    output_buffer: Vec<u8>,
}

impl ViterbiDecoder {
    /// Well-formedness: one path metric and one predecessor per register state.
    pub closed spec fn wf(&self) -> bool {
        &&& 1 <= self.k
        &&& self.k - 1 < usize::BITS
        &&& self.states@.len() == (1usize << ((self.k - 1) as usize))
        &&& self.prev_states@.len() == self.states@.len()
        &&& self.traceback_length == self.k * 5
    }

    pub closed spec fn spec_k(&self) -> usize {
        self.k
    }

    pub closed spec fn spec_traceback_length(&self) -> usize {
        self.traceback_length
    }

    /// Number of symbol pairs received since the last reset.
    pub closed spec fn spec_received(&self) -> nat {
        self.symbol_buffer@.len()
    }

    /// Path metrics, one per register state.
    pub closed spec fn spec_metrics(&self) -> Seq<i32> {
        self.states@
    }

    /// Decoder for constraint length `k` (`1 <= k` and `k - 1` a valid
    /// shift of a machine word) with all path metrics at the minimum.
    pub fn new(k: usize, poly1: u32, poly2: u32) -> (d: Self)
        requires
            1 <= k,
            k - 1 < usize::BITS,
        ensures
            d.wf(),
            d.spec_k() == k,
            d.spec_traceback_length() == k * 5,
            d.spec_received() == 0,
            d.spec_metrics().len() == (1usize << ((k - 1) as usize)),
            forall|i: int| 0 <= i < d.spec_metrics().len() ==> #[trigger] d.spec_metrics()[i] == i32::MIN,
    {
        let num_states: usize = 1usize << ((k - 1) as usize);
        assert(k <= 64);
        Self {
            k,
            poly1,
            poly2,
            states: vec![i32::MIN; num_states],
            prev_states: vec![0; num_states],
            traceback_length: k * 5,
            symbol_buffer: Vec::new(),
            output_buffer: Vec::new(),
        }
    }

    /// Receive one symbol pair. Until `traceback_length` pairs have been
    /// received nothing is decided; from then on each pair yields bit 0 when
    /// its two symbols agree and 1 when they differ.
    pub fn decode(&mut self, symbols: [u8; 2]) -> (bit: Option<u8>)
        requires
            old(self).wf(),
        ensures
            final(self).wf(),
            final(self).spec_k() == old(self).spec_k(),
            final(self).spec_traceback_length() == old(self).spec_traceback_length(),
            final(self).spec_metrics() == old(self).spec_metrics(),
            final(self).spec_received() == old(self).spec_received() + 1,
            final(self).spec_received() < final(self).spec_traceback_length() ==> bit is None,
            (bit is Some) == decoder_yields(old(self).spec_received(), old(self).spec_traceback_length() as nat, 0),
            final(self).spec_received() >= final(self).spec_traceback_length() ==> bit == Some(
                if symbols@[0] == symbols@[1] {
                    0u8
                } else {
                    1u8
                },
            ),
    {
        self.symbol_buffer.push(symbols);
        if self.symbol_buffer.len() < self.traceback_length {
            return None;
        }
        let bit: u8 = if symbols[0] == symbols[1] {
            0
        } else {
            1
        };
        Some(bit)
    }

    /// Reset: metric 0 for the zero state and the minimum for all others,
    /// and no symbols received.
    pub fn reset(&mut self)
        requires
            old(self).wf(),
        ensures
            final(self).wf(),
            final(self).spec_k() == old(self).spec_k(),
            final(self).spec_traceback_length() == old(self).spec_traceback_length(),
            final(self).spec_received() == 0,
            final(self).spec_metrics().len() == old(self).spec_metrics().len(),
            final(self).spec_metrics()[0] == 0,
            forall|i: int|
                1 <= i < final(self).spec_metrics().len() ==> #[trigger] final(self).spec_metrics()[i]
                    == i32::MIN,
    {
        proof {
            let k = self.k;
            assert((1usize << ((k - 1) as usize)) > 0) by (bit_vector)
                requires
                    k - 1 < usize::BITS,
                    1 <= k,
            ;
        }
        let mut i: usize = 0;
        while i < self.states.len()
            invariant
                i <= self.states@.len(),
                self.states@.len() == old(self).states@.len(),
                self.k == old(self).k,
                self.prev_states == old(self).prev_states,
                self.traceback_length == old(self).traceback_length,
                self.symbol_buffer == old(self).symbol_buffer,
                self.output_buffer == old(self).output_buffer,
                self.poly1 == old(self).poly1,
                self.poly2 == old(self).poly2,
                forall|j: int| 0 <= j < i ==> #[trigger] self.states@[j] == i32::MIN,
            decreases self.states.len() - i,
        {
            self.states.set(i, i32::MIN);
            i += 1;
        }
        self.states.set(0, 0);
        self.symbol_buffer.clear();
        self.output_buffer.clear();
    }
}

/// Simplified symbol interleaver: a circular delay line of `size * depth`
/// cells; each symbol written comes out again after a full turn.
#[derive(Clone)]
pub struct Interleaver {
    size: usize,
    depth: usize,
    buffer: Vec<u8>,
    index: usize,
}

/// Delay line after writing `sym` at position `idx`: the new cells, the
/// next position, and the symbol that was there.
pub open spec fn delay_step(cells: Seq<u8>, idx: nat, sym: u8) -> (Seq<u8>, nat, u8) {
    (cells.update(idx as int, sym), (idx + 1) % cells.len(), cells[idx as int])
}

impl Interleaver {
    /// Well-formedness: the position stays inside the delay line.
    pub closed spec fn wf(&self) -> bool {
        &&& self.buffer@.len() == self.size * self.depth
        &&& (self.buffer@.len() > 0 ==> self.index < self.buffer@.len())
        &&& (self.buffer@.len() == 0 ==> self.index == 0)
    }

    /// Cells of the delay line.
    pub closed spec fn spec_cells(&self) -> Seq<u8> {
        self.buffer@
    }

    /// Position of the next write.
    pub closed spec fn spec_index(&self) -> nat {
        self.index as nat
    }

    /// Interleaver with `size * depth` zero cells.
    pub fn new(size: usize, depth: usize) -> (it: Self)
        requires
            size * depth <= usize::MAX,
        ensures
            it.wf(),
            it.spec_cells() == Seq::new((size * depth) as nat, |i: int| 0u8),
            it.spec_index() == 0,
    {
        let n: usize = size * depth;
        let buffer: Vec<u8> = vec![0u8; n];
        let it = Self { size, depth, buffer, index: 0 };
        assert(it.buffer@ =~= Seq::new((size * depth) as nat, |i: int| 0u8));
        it
    }

    /// Pass both symbols through the delay line: each is written at the
    /// current position and replaced by the symbol that was stored there.
    pub fn interleave(&mut self, symbols: &mut [u8; 2])
        requires
            old(self).wf(),
            old(self).spec_cells().len() > 0,
        ensures
            final(self).wf(),
            ({
                let s1 = delay_step(old(self).spec_cells(), old(self).spec_index(), old(symbols)@[0]);
                let s2 = delay_step(s1.0, s1.1, old(symbols)@[1]);
                &&& final(self).spec_cells() == s2.0
                &&& final(self).spec_index() == s2.1
                &&& final(symbols)@ == seq![s1.2, s2.2]
            }),
    {
        let first = self.pass_through(symbols[0]);
        let second = self.pass_through(symbols[1]);
        symbols[0] = first;
        symbols[1] = second;
        assert(symbols@ =~= seq![first, second]);
    }

    /// Write one symbol at the current position and return the one stored there.
    fn pass_through(&mut self, sym: u8) -> (out: u8)
        requires
            old(self).wf(),
            old(self).spec_cells().len() > 0,
        ensures
            final(self).wf(),
            final(self).spec_cells().len() == old(self).spec_cells().len(),
            (final(self).spec_cells(), final(self).spec_index(), out) == delay_step(
                old(self).spec_cells(),
                old(self).spec_index(),
                sym,
            ),
    {
        let n = self.buffer.len();
        let out = self.buffer[self.index];
        self.buffer.set(self.index, sym);
        self.index = (self.index + 1) % n;
        out
    }

    /// Same operation as `interleave`: the delay line is its own inverse
    /// stage in this simplified design.
    pub fn deinterleave(&mut self, symbols: &mut [u8; 2])
        requires
            old(self).wf(),
            old(self).spec_cells().len() > 0,
        ensures
            final(self).wf(),
            ({
                let s1 = delay_step(old(self).spec_cells(), old(self).spec_index(), old(symbols)@[0]);
                let s2 = delay_step(s1.0, s1.1, old(symbols)@[1]);
                &&& final(self).spec_cells() == s2.0
                &&& final(self).spec_index() == s2.1
                &&& final(symbols)@ == seq![s1.2, s2.2]
            }),
    {
        self.interleave(symbols);
    }

    /// Clear all cells and return to the first position.
    pub fn reset(&mut self)
        requires
            old(self).wf(),
        ensures
            final(self).wf(),
            final(self).spec_cells() == Seq::new(old(self).spec_cells().len(), |i: int| 0u8),
            final(self).spec_index() == 0,
    {
        let mut i: usize = 0;
        while i < self.buffer.len()
            invariant
                i <= self.buffer@.len(),
                self.buffer@.len() == old(self).buffer@.len(),
                self.size == old(self).size,
                self.depth == old(self).depth,
                forall|j: int| 0 <= j < i ==> #[trigger] self.buffer@[j] == 0u8,
            decreases self.buffer.len() - i,
        {
            self.buffer.set(i, 0);
            i += 1;
        }
        self.index = 0;
        assert(self.buffer@ =~= Seq::new(old(self).buffer@.len(), |i: int| 0u8));
    }
}


/// PSK varicode of the byte values 0 to 127: the bits of each code, most
/// significant first (see `VARICODE_LENGTHS` for how many).
pub const VARICODE_VALUES: [u16; 128] = [
    683u16, 731u16, 749u16, 887u16, 747u16, 863u16, 751u16, 765u16, 767u16, 239u16, 29u16,
    879u16, 733u16, 31u16, 885u16, 939u16, 43691u16, 2987u16, 5851u16, 7019u16, 683u16, 1899u16,
    2731u16, 699u16, 375u16, 47787u16, 1879u16, 5803u16, 15191u16, 5463u16, 5847u16, 5815u16,
    1u16, 511u16, 351u16, 367u16, 703u16, 431u16, 479u16, 687u16, 683u16, 63u16, 61u16, 47u16,
    45u16, 55u16, 343u16, 53u16, 111u16, 183u16, 93u16, 237u16, 119u16, 85u16, 117u16, 91u16,
    87u16, 109u16, 123u16, 31u16, 175u16, 85u16, 29u16, 43u16, 59u16, 863u16, 11u16, 95u16,
    47u16, 45u16, 3u16, 61u16, 91u16, 42u16, 13u16, 507u16, 191u16, 43u16, 7u16, 11u16, 7u16,
    87u16, 223u16, 11u16, 15u16, 5u16, 6u16, 127u16, 27u16, 21u16, 383u16, 763u16, 191u16,
    255u16, 895u16, 1407u16, 1007u16, 735u16, 11u16, 95u16, 47u16, 45u16, 3u16, 61u16, 91u16,
    42u16, 13u16, 507u16, 191u16, 43u16, 7u16, 11u16, 7u16, 87u16, 223u16, 11u16, 15u16, 5u16,
    6u16, 127u16, 27u16, 21u16, 383u16, 763u16, 767u16, 2047u16, 3071u16, 1023u16
];

/// Number of bits of each varicode.
pub const VARICODE_LENGTHS: [u8; 128] = [
    10u8, 10u8, 10u8, 10u8, 10u8, 10u8, 10u8, 10u8, 10u8, 8u8, 5u8, 10u8, 10u8, 5u8, 10u8, 10u8,
    16u8, 12u8, 13u8, 13u8, 10u8, 11u8, 12u8, 10u8, 9u8, 16u8, 11u8, 13u8, 14u8, 13u8, 13u8,
    13u8, 1u8, 9u8, 9u8, 9u8, 10u8, 9u8, 9u8, 10u8, 10u8, 6u8, 6u8, 6u8, 6u8, 6u8, 9u8, 6u8,
    7u8, 8u8, 7u8, 8u8, 7u8, 7u8, 7u8, 7u8, 7u8, 7u8, 7u8, 5u8, 8u8, 7u8, 5u8, 6u8, 6u8, 10u8,
    4u8, 7u8, 6u8, 6u8, 2u8, 6u8, 7u8, 6u8, 4u8, 9u8, 8u8, 6u8, 3u8, 4u8, 3u8, 7u8, 8u8, 4u8,
    4u8, 3u8, 3u8, 7u8, 5u8, 5u8, 9u8, 10u8, 8u8, 8u8, 10u8, 11u8, 10u8, 10u8, 4u8, 7u8, 6u8,
    6u8, 2u8, 6u8, 7u8, 6u8, 4u8, 9u8, 8u8, 6u8, 3u8, 4u8, 3u8, 7u8, 8u8, 4u8, 4u8, 3u8, 3u8,
    7u8, 5u8, 5u8, 9u8, 10u8, 10u8, 11u8, 12u8, 10u8
];

/// The `len` low bits of `value`, most significant first.
pub open spec fn code_bits(value: u16, len: nat) -> Seq<u8> {
    Seq::new(len, |k: int| ((value >> ((len - 1 - k) as u16)) & 1u16) as u8)
}

/// Varicode of table entry `i`.
pub open spec fn table_code(i: int) -> Seq<u8> {
    code_bits(VARICODE_VALUES@[i], VARICODE_LENGTHS@[i] as nat)
}

/// Varicode of a byte: its table entry, or 101011 for bytes past the table.
pub open spec fn varicode(byte: u8) -> Seq<u8> {
    if byte < 128 {
        table_code(byte as int)
    } else {
        code_bits(0b101011u16, 6)
    }
}

fn code_bits_of(value: u16, len: u8) -> (bits: Vec<u8>)
    requires
        len <= 16,
    ensures
        bits@ == code_bits(value, len as nat),
{
    let mut bits: Vec<u8> = Vec::new();
    let mut k: u8 = 0;
    while k < len
        invariant
            k <= len <= 16,
            bits@.len() == k,
            forall|j: int| 0 <= j < k ==> #[trigger] bits@[j] == code_bits(value, len as nat)[j],
        decreases len - k,
    {
        let shift: u16 = (len - 1 - k) as u16;
        bits.push(((value >> shift) & 1u16) as u8);
        k += 1;
    }
    assert(bits@ =~= code_bits(value, len as nat));
    bits
}

/// The varicode bits of a byte.
pub fn varicode_bits(byte: u8) -> (bits: Vec<u8>)
    ensures
        bits@ == varicode(byte),
{
    if byte < 128 {
        let i = byte as usize;
        assert(VARICODE_LENGTHS@[i as int] <= 16) by {
            assert(forall|j: int| 0 <= j < 128 ==> #[trigger] VARICODE_LENGTHS@[j] <= 16);
        }
        code_bits_of(VARICODE_VALUES[i], VARICODE_LENGTHS[i])
    } else {
        code_bits_of(0b101011u16, 6)
    }
}

/// Position of the first pair of 0 bits at or after `i`.
pub open spec fn separator_from(b: Seq<u8>, i: int) -> Option<int>
    decreases b.len() - i,
{
    if i < 0 || i + 1 >= b.len() {
        None
    } else if b[i] == 0 && b[i + 1] == 0 {
        Some(i)
    } else {
        separator_from(b, i + 1)
    }
}

/// Bits read as 1 where they are 1, else as 0.
pub open spec fn as_binary(b: Seq<u8>) -> Seq<u8> {
    b.map_values(|x: u8| if x == 1 { 1u8 } else { 0u8 })
}

/// First table entry at or after `from` whose code is `bits`.
pub open spec fn table_index_from(bits: Seq<u8>, from: int) -> Option<u8>
    decreases 128 - from,
{
    if from < 0 || from >= 128 {
        None
    } else if table_code(from) == bits {
        Some(from as u8)
    } else {
        table_index_from(bits, from + 1)
    }
}

/// The byte whose varicode ends the buffer at its first "00" separator,
/// if the bits before the separator (at least one) are a code.
pub open spec fn varicode_decoded(b: Seq<u8>) -> Option<u8> {
    match separator_from(b, 0) {
        Some(i) => if i > 0 {
            table_index_from(as_binary(b.subrange(0, i)), 0)
        } else {
            None
        },
        None => None,
    }
}

/// Whether the table entry `i` has exactly the bits `bits`.
fn entry_matches(i: usize, bits: &Vec<u8>) -> (b: bool)
    requires
        i < 128,
    ensures
        b == (table_code(i as int) == bits@),
{
    assert(forall|j: int| 0 <= j < 128 ==> #[trigger] VARICODE_LENGTHS@[j] <= 16);
    let code = code_bits_of(VARICODE_VALUES[i], VARICODE_LENGTHS[i]);
    if code.len() != bits.len() {
        return false;
    }
    let mut k: usize = 0;
    while k < code.len()
        invariant
            code@ == table_code(i as int),
            code@.len() == bits@.len(),
            k <= code@.len(),
            forall|j: int| 0 <= j < k ==> code@[j] == bits@[j],
        decreases code.len() - k,
    {
        if code[k] != bits[k] {
            return false;
        }
        k += 1;
    }
    assert(code@ =~= bits@);
    true
}

/// Decode the varicode that ends at the first "00" separator of a bit
/// buffer (see `varicode_decoded`).
pub fn decode_varicode_buffer(buffer: &[u8]) -> (r: Option<u8>)
    ensures
        r == varicode_decoded(buffer@),
{
    let ghost b = buffer@;
    if buffer.len() < 2 {
        return None;
    }
    let mut i: usize = 0;
    while i + 1 < buffer.len()
        invariant
            b == buffer@,
            i + 1 <= buffer@.len(),
            separator_from(b, 0) == separator_from(b, i as int),
        decreases buffer.len() - i,
    {
        if buffer[i] == 0 && buffer[i + 1] == 0 {
            assert(separator_from(b, i as int) == Some(i as int));
            if i == 0 {
                return None;
            }
            let mut prefix: Vec<u8> = Vec::new();
            let mut k: usize = 0;
            while k < i
                invariant
                    b == buffer@,
                    i < buffer@.len(),
                    i > 0,
                    separator_from(b, 0) == Some(i as int),
                    k <= i,
                    prefix@ == as_binary(b.subrange(0, k as int)),
                decreases i - k,
            {
                prefix.push(if buffer[k] == 1 { 1u8 } else { 0u8 });
                k += 1;
                assert(prefix@ =~= as_binary(b.subrange(0, k as int)));
            }
            let mut t: usize = 0;
            while t < 128
                invariant
                    t <= 128,
                    b == buffer@,
                    i > 0,
                    separator_from(b, 0) == Some(i as int),
                    prefix@ == as_binary(b.subrange(0, i as int)),
                    table_index_from(prefix@, 0) == table_index_from(prefix@, t as int),
                decreases 128 - t,
            {
                if entry_matches(t, &prefix) {
                    return Some(t as u8);
                }
                t += 1;
            }
            return None;
        }
        i += 1;
    }
    None
}

/// `code` occurs somewhere in `window`.
pub open spec fn occurs_in(code: Seq<u8>, window: Seq<u8>) -> bool {
    exists|p: int| 0 <= p && p + code.len() <= window.len() && #[trigger] window.subrange(p, p + code.len()) == code
}

/// First byte value from `from` to 126 (and above 0) whose varicode occurs
/// in `window`.
pub open spec fn first_code_in(window: Seq<u8>, from: int) -> Option<u8>
    decreases 127 - from,
{
    if from < 1 || from >= 127 {
        None
    } else if occurs_in(table_code(from), window) {
        Some(from as u8)
    } else {
        first_code_in(window, from + 1)
    }
}

fn occurs(code: &Vec<u8>, window: &Vec<u8>) -> (b: bool)
    requires
        window@.len() <= 0x1000_0000,
    ensures
        b == occurs_in(code@, window@),
{
    if code.len() > window.len() {
        return false;
    }
    let last = window.len() - code.len();
    let mut p: usize = 0;
    while p <= last
        invariant
            code@.len() <= window@.len() <= 0x1000_0000,
            last == window@.len() - code@.len(),
            p <= last + 1,
            forall|q: int| 0 <= q < p ==> #[trigger] window@.subrange(q, q + code@.len()) != code@,
        decreases last + 1 - p,
    {
        let mut k: usize = 0;
        let mut same = true;
        while k < code.len()
            invariant
                p <= last,
                code@.len() <= window@.len() <= 0x1000_0000,
                last == window@.len() - code@.len(),
                k <= code@.len(),
                same == forall|j: int| 0 <= j < k ==> window@[p + j] == code@[j],
            decreases code.len() - k,
        {
            if window[p + k] != code[k] {
                same = false;
            }
            k += 1;
        }
        if same {
            assert(window@.subrange(p as int, p + code@.len()) =~= code@);
            return true;
        }
        proof {
            if window@.subrange(p as int, p + code@.len()) == code@ {
                assert forall|j: int| 0 <= j < code@.len() implies window@[p + j] == code@[j] by {
                    assert(window@.subrange(p as int, p + code@.len())[j] == window@[p + j]);
                }
            }
        }
        p += 1;
    }
    false
}

/// The byte value (1 to 126) of the first varicode of the table found in
/// the bit window, scanning the table in order.
pub fn find_varicode_in(window: &[u8]) -> (r: Option<u8>)
    requires
        window@.len() <= 0x1000_0000,
    ensures
        r == first_code_in(as_binary(window@), 1),
{
    let mut bits: Vec<u8> = Vec::new();
    let mut k: usize = 0;
    while k < window.len()
        invariant
            k <= window@.len(),
            bits@ == as_binary(window@.subrange(0, k as int)),
        decreases window.len() - k,
    {
        bits.push(if window[k] == 1 { 1u8 } else { 0u8 });
        k += 1;
        assert(bits@ =~= as_binary(window@.subrange(0, k as int)));
    }
    assert(window@.subrange(0, window@.len() as int) =~= window@);
    assert(forall|j: int| 0 <= j < 128 ==> #[trigger] VARICODE_LENGTHS@[j] <= 16);
    let mut t: usize = 1;
    while t < 127
        invariant
            1 <= t <= 127,
            bits@ == as_binary(window@),
            bits@.len() <= 0x1000_0000,
            forall|j: int| 0 <= j < 128 ==> #[trigger] VARICODE_LENGTHS@[j] <= 16,
            first_code_in(bits@, 1) == first_code_in(bits@, t as int),
        decreases 127 - t,
    {
        let code = code_bits_of(VARICODE_VALUES[t], VARICODE_LENGTHS[t]);
        if occurs(&code, &bits) {
            return Some(t as u8);
        }
        t += 1;
    }
    None
}

} // verus!
