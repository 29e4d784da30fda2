//! Line coding: Manchester (0 -> high then low, 1 -> low then high) and
//! 4B/5B with NRZI. This module holds the bit and level logic; turning
//! levels into audio samples is done by the caller.

use vstd::prelude::*;

verus! {

#[derive(Clone, Copy, Debug, PartialEq, Eq, Structural)]
pub enum LineCodingKind {
    Manchester,
    FourBFiveB,
}

impl LineCodingKind {
    pub fn name(self) -> (n: &'static str)
        ensures
            self == LineCodingKind::Manchester ==> n@ == "Manchester"@,
            self == LineCodingKind::FourBFiveB ==> n@ == "4B5B"@,
    {
        match self {
            LineCodingKind::Manchester => "Manchester",
            LineCodingKind::FourBFiveB => "4B5B",
        }
    }
}

/// Unicode lowercase of a string, as `str::to_lowercase` computes it.
pub uninterp spec fn lowercase(s: Seq<char>) -> Seq<char>;

/// Calls `str::to_lowercase`. Trusted: the result is the named `lowercase`
/// of the argument (the mapping is fixed Unicode case data, independent of
/// locale).
#[verifier::external_body]
fn to_lowercase(s: &str) -> (r: String)
    ensures
        r@ == lowercase(s@),
{
    s.to_lowercase()
}

/// Line coding named by a command-line value (case-insensitive):
/// "manchester" or "manchester-biphase" select Manchester, anything else
/// (including "4b5b" and "4b5b-nrz") selects 4B/5B.
pub fn parse_line_coding(encoding: &str) -> (k: LineCodingKind)
    ensures
        k == (if lowercase(encoding@) == "manchester"@ || lowercase(encoding@) == "manchester-biphase"@ {
            LineCodingKind::Manchester
        } else {
            LineCodingKind::FourBFiveB
        }),
{
    let lower = to_lowercase(encoding);
    if lower == "manchester".to_owned() || lower == "manchester-biphase".to_owned() {
        LineCodingKind::Manchester
    } else {
        LineCodingKind::FourBFiveB
    }
}

/// Manchester: bit 0 -> [+1, -1], bit 1 -> [-1, +1], each level held for
/// `samples_per_level` samples.
pub struct ManchesterCodec {
    samples_per_level: usize,
}

/// Level (+1 or -1) of sample `p` in the Manchester encoding of `bits`
/// with `spl` samples per level.
pub open spec fn manchester_level(bits: Seq<u8>, spl: nat, p: int) -> i8 {
    let w = 2 * (spl as int);
    let bit = bits[p / w];
    let first_half = p % w < spl;
    if (bit == 0) == first_half {
        1i8
    } else {
        -1i8
    }
}

impl ManchesterCodec {
    pub closed spec fn spec_samples_per_level(&self) -> usize {
        self.samples_per_level
    }

    pub fn new(samples_per_level: usize) -> (c: Self)
        ensures
            c.spec_samples_per_level() == samples_per_level,
    {
        Self { samples_per_level }
    }

    /// Number of samples that `num_bits` bits take.
    pub fn samples_for_bits(&self, num_bits: usize) -> (n: usize)
        requires
            num_bits * self.spec_samples_per_level() * 2 <= usize::MAX,
        ensures
            n == num_bits * self.spec_samples_per_level() * 2,
    {
        num_bits * self.samples_per_level * 2
    }

    /// The sample levels (+1/-1) of the Manchester encoding of `bits`: bit 0
    /// is high then low, any other value low then high.
    pub fn levels(&self, bits: &[u8]) -> (levels: Vec<i8>)
        requires
            bits@.len() * self.spec_samples_per_level() * 2 <= usize::MAX,
        ensures
            levels@.len() == bits@.len() * self.spec_samples_per_level() * 2,
            forall|p: int|
                0 <= p < levels@.len() ==> #[trigger] levels@[p] == manchester_level(
                    bits@,
                    self.spec_samples_per_level() as nat,
                    p,
                ),
    {
        let spl = self.samples_per_level;
        let ghost s = spl as nat;
        let mut levels: Vec<i8> = Vec::new();
        let mut i: usize = 0;
        while i < bits.len()
            invariant
                i <= bits@.len(),
                bits@.len() * s * 2 <= usize::MAX,
                spl == s,
                levels@.len() == i * s * 2,
                forall|p: int|
                    0 <= p < levels@.len() ==> #[trigger] levels@[p] == manchester_level(bits@, s, p),
            decreases bits.len() - i,
        {
            let (first, second): (i8, i8) = if bits[i] == 0 {
                (1, -1)
            } else {
                (-1, 1)
            };
            assert(i * s * 2 + 2 * s <= bits@.len() * s * 2) by (nonlinear_arith)
                requires
                    i < bits@.len(),
            ;
            let mut h: usize = 0;
            while h < 2 * spl
                invariant
                    i < bits@.len(),
                    bits@.len() * s * 2 <= usize::MAX,
                    i * s * 2 + 2 * s <= bits@.len() * s * 2,
                    spl == s,
                    h <= 2 * s,
                    first == (if bits@[i as int] == 0 { 1i8 } else { -1i8 }),
                    second == -first,
                    levels@.len() == i * s * 2 + h,
                    forall|p: int|
                        0 <= p < levels@.len() ==> #[trigger] levels@[p] == manchester_level(
                            bits@,
                            s,
                            p,
                        ),
                decreases 2 * spl - h,
            {
                let level = if h < spl {
                    first
                } else {
                    second
                };
                proof {
                    let p: int = i * s * 2 + h;
                    let w: int = 2 * (s as int);
                    assert(p == i * w + h) by (nonlinear_arith)
                        requires
                            p == i * s * 2 + h,
                            w == 2 * s,
                    ;
                    vstd::arithmetic::div_mod::lemma_fundamental_div_mod_converse(p, w, i as int, h as int);
                }
                levels.push(level);
                h += 1;
            }
            assert(i * s * 2 + 2 * s == (i + 1) * s * 2) by (nonlinear_arith);
            i += 1;
        }
        levels
    }

    /// Decode sample levels: bit `i` is 0 when the first half of its
    /// samples sums higher than the second half (the higher average), else
    /// 1. Trailing samples that do not make a whole bit are ignored.
    pub fn decode_levels(&self, levels: &[i8]) -> (bits: Vec<u8>)
        requires
            self.spec_samples_per_level() > 0,
            self.spec_samples_per_level() * 2 <= usize::MAX,
            levels@.len() <= 0x1_0000_0000,
        ensures
            bits@.len() == levels@.len() as int / (2 * self.spec_samples_per_level()),
            forall|i: int|
                0 <= i < bits@.len() ==> #[trigger] bits@[i] == manchester_bit(
                    levels@,
                    self.spec_samples_per_level() as nat,
                    i,
                ),
    {
        let spl = self.samples_per_level;
        let ghost s = spl as nat;
        let per_bit: usize = spl * 2;
        let num_bits: usize = levels.len() / per_bit;
        let mut bits: Vec<u8> = Vec::new();
        let mut i: usize = 0;
        while i < num_bits
            invariant
                spl == s,
                s > 0,
                per_bit == 2 * s,
                num_bits == levels@.len() as int / (per_bit as int),
                levels@.len() <= 0x1_0000_0000,
                i <= num_bits,
                bits@.len() == i,
                forall|k: int| 0 <= k < i ==> #[trigger] bits@[k] == manchester_bit(levels@, s, k),
            decreases num_bits - i,
        {
            proof {
                vstd::arithmetic::div_mod::lemma_fundamental_div_mod(levels@.len() as int, per_bit as int);
                assert((i + 1) * per_bit <= num_bits * per_bit) by (nonlinear_arith)
                    requires
                        i < num_bits,
                ;
                assert(i * per_bit + per_bit == (i + 1) * per_bit) by (nonlinear_arith);
            }
            let start: usize = i * per_bit;
            let first = sum_levels(levels, start, spl);
            let second = sum_levels(levels, start + spl, spl);
            proof {
                assert(i * 2 * s == start) by (nonlinear_arith)
                    requires
                        start == i * per_bit,
                        per_bit == 2 * s,
                ;
            }
            if first > second {
                bits.push(0);
            } else {
                bits.push(1);
            }
            i += 1;
        }
        bits
    }
}

/// Sum of the `n` levels from position `start`.
pub open spec fn level_sum(levels: Seq<i8>, start: int, n: nat) -> int
    decreases n,
{
    if n == 0 {
        0
    } else {
        level_sum(levels, start, (n - 1) as nat) + levels[start + n - 1]
    }
}

/// Bit `i` of the Manchester decoding of sample levels with `spl` samples
/// per level: 0 when the first half of its samples sums higher than the
/// second half, else 1.
pub open spec fn manchester_bit(levels: Seq<i8>, spl: nat, i: int) -> u8 {
    if level_sum(levels, i * 2 * spl, spl) > level_sum(levels, i * 2 * spl + spl, spl) {
        0
    } else {
        1
    }
}

fn sum_levels(levels: &[i8], start: usize, n: usize) -> (sum: i64)
    requires
        start + n <= levels@.len(),
        levels@.len() <= 0x1_0000_0000,
    ensures
        sum == level_sum(levels@, start as int, n as nat),
{
    let mut sum: i64 = 0;
    let mut k: usize = 0;
    while k < n
        invariant
            k <= n,
            start + n <= levels@.len(),
            levels@.len() <= 0x1_0000_0000,
            sum == level_sum(levels@, start as int, k as nat),
            -128 * k <= sum <= 127 * k,
        decreases n - k,
    {
        sum = sum + levels[start + k] as i64;
        k += 1;
    }
    sum
}

/// A run of `n` equal levels `c` sums to `n * c`.
proof fn lemma_constant_sum(levels: Seq<i8>, start: int, n: nat, c: i8)
    requires
        forall|p: int| start <= p < start + n ==> #[trigger] levels[p] == c,
    ensures
        level_sum(levels, start, n) == n * c,
    decreases n,
{
    if n > 0 {
        lemma_constant_sum(levels, start, (n - 1) as nat, c);
        assert(level_sum(levels, start, n) == (n - 1) * c + c);
        assert((n - 1) * c + c == n * c) by (nonlinear_arith);
    } else {
        assert(n * c == 0) by (nonlinear_arith)
            requires
                n == 0,
        ;
    }
}

/// Manchester decoding undoes Manchester encoding: the levels of a bit
/// sequence of 0s and 1s decode back to that sequence (for any positive
/// number of samples per level).
pub proof fn lemma_manchester_roundtrip(bits: Seq<u8>, spl: nat, i: int)
    requires
        spl > 0,
        0 <= i < bits.len(),
        bits[i] == 0 || bits[i] == 1,
    ensures
        manchester_bit(
            Seq::new(bits.len() * spl * 2, |p: int| manchester_level(bits, spl, p)),
            spl,
            i,
        ) == bits[i],
{
    let levels = Seq::new(bits.len() * spl * 2, |p: int| manchester_level(bits, spl, p));
    let w: int = 2 * (spl as int);
    let start: int = i * 2 * spl;
    assert(start == i * w) by (nonlinear_arith)
        requires
            start == i * 2 * spl,
            w == 2 * spl,
    ;
    assert(start + w <= bits.len() * spl * 2) by (nonlinear_arith)
        requires
            start == i * w,
            w == 2 * spl,
            i < bits.len(),
    ;
    let high: i8 = if bits[i] == 0 {
        1i8
    } else {
        -1i8
    };
    assert forall|p: int| start <= p < start + spl implies #[trigger] levels[p] == high by {
        vstd::arithmetic::div_mod::lemma_fundamental_div_mod_converse(p, w, i, p - start);
    }
    assert forall|p: int| start + spl <= p < start + spl + spl implies #[trigger] levels[p] == -high by {
        vstd::arithmetic::div_mod::lemma_fundamental_div_mod_converse(p, w, i, p - start);
    }
    lemma_constant_sum(levels, start, spl, high);
    lemma_constant_sum(levels, start + spl, spl, (-high) as i8);
    assert(spl * high > spl * (-high) <==> high > 0) by (nonlinear_arith)
        requires
            spl > 0,
            high == 1 || high == -1,
    ;
}

/// 4B/5B code table: the 5-bit symbol of each 4-bit nibble.
pub const FOURB_FIVEB_ENCODE_TABLE: [u8; 16] = [
    0b11110u8,
    0b01001u8,
    0b10100u8,
    0b10101u8,
    0b01010u8,
    0b01011u8,
    0b01110u8,
    0b01111u8,
    0b10010u8,
    0b10011u8,
    0b10110u8,
    0b10111u8,
    0b11010u8,
    0b11011u8,
    0b11100u8,
    0b11101u8,
];

/// The nibble a 5-bit symbol stands for, if it is one of the sixteen code
/// symbols.
pub open spec fn nibble_of_symbol(symbol: u8) -> Option<u8> {
    if exists|n: int| 0 <= n < 16 && FOURB_FIVEB_ENCODE_TABLE@[n] == symbol {
        Some((choose|n: int| 0 <= n < 16 && FOURB_FIVEB_ENCODE_TABLE@[n] == symbol) as u8)
    } else {
        None
    }
}

proof fn lemma_table_values()
    ensures
        FOURB_FIVEB_ENCODE_TABLE@ == seq![
            0b11110u8,
            0b01001u8,
            0b10100u8,
            0b10101u8,
            0b01010u8,
            0b01011u8,
            0b01110u8,
            0b01111u8,
            0b10010u8,
            0b10011u8,
            0b10110u8,
            0b10111u8,
            0b11010u8,
            0b11011u8,
            0b11100u8,
            0b11101u8,
        ],
{
    assert(FOURB_FIVEB_ENCODE_TABLE@ =~= seq![
        0b11110u8,
        0b01001u8,
        0b10100u8,
        0b10101u8,
        0b01010u8,
        0b01011u8,
        0b01110u8,
        0b01111u8,
        0b10010u8,
        0b10011u8,
        0b10110u8,
        0b10111u8,
        0b11010u8,
        0b11011u8,
        0b11100u8,
        0b11101u8,
    ]);
}

/// Each code symbol decodes to the nibble it encodes.
pub proof fn lemma_symbol_roundtrip(n: int)
    requires
        0 <= n < 16,
    ensures
        nibble_of_symbol(FOURB_FIVEB_ENCODE_TABLE@[n]) == Some(n as u8),
{
    lemma_table_values();
    let ghost t = FOURB_FIVEB_ENCODE_TABLE@;
    assert forall|a: int, b: int| 0 <= a < 16 && 0 <= b < 16 && t[a] == t[b] implies a == b by {}
}

/// Decode one 5-bit symbol to its nibble; `None` for the sixteen non-code
/// values.
fn decode_4b5b_symbol(symbol: u8) -> (n: Option<u8>)
    ensures
        n == nibble_of_symbol(symbol),
{
    proof {
        lemma_table_values();
    }
    let ghost t = FOURB_FIVEB_ENCODE_TABLE@;
    let r = match symbol {
        0b11110 => Some(0x0),
        0b01001 => Some(0x1),
        0b10100 => Some(0x2),
        0b10101 => Some(0x3),
        0b01010 => Some(0x4),
        0b01011 => Some(0x5),
        0b01110 => Some(0x6),
        0b01111 => Some(0x7),
        0b10010 => Some(0x8),
        0b10011 => Some(0x9),
        0b10110 => Some(0xA),
        0b10111 => Some(0xB),
        0b11010 => Some(0xC),
        0b11011 => Some(0xD),
        0b11100 => Some(0xE),
        0b11101 => Some(0xF),
        _ => None,
    };
    proof {
        match r {
            Some(v) => {
                lemma_symbol_roundtrip(v as int);
            },
            None => {
                assert(!exists|n: int| 0 <= n < 16 && t[n] == symbol);
            },
        }
    }
    r
}

/// Nibble spelled by the first `n` (at most 4) entries of `bits`, MSB
/// first, any non-zero entry counting as 1.
pub open spec fn nibble_prefix(bits: Seq<u8>, n: nat) -> u8
    decreases n,
{
    if n == 0 {
        0
    } else {
        let b = nibble_prefix(bits, (n - 1) as nat);
        if bits[n - 1] != 0 {
            b | (1u8 << ((4 - n) as u8))
        } else {
            b
        }
    }
}

/// Nibble `i` of a bit stream (a short final group is padded with zeros).
pub open spec fn nibble_at(bits: Seq<u8>, i: int) -> u8 {
    let rest = bits.subrange(4 * i, bits.len() as int);
    nibble_prefix(rest, if rest.len() < 4 { rest.len() } else { 4 })
}

/// The 4B/5B bit stream of `bits`: for each nibble its 5-bit symbol, MSB first.
pub open spec fn fourb_fiveb_bits(bits: Seq<u8>) -> Seq<u8> {
    Seq::new(
        5 * ((bits.len() + 3) / 4),
        |p: int| (FOURB_FIVEB_ENCODE_TABLE@[nibble_at(bits, p / 5) as int] >> ((4 - p % 5) as u8)) & 1u8,
    )
}

/// Group `bits` into nibbles (MSB first, last one zero-padded) and replace
/// each by its 5-bit 4B/5B symbol, emitted MSB first.
pub fn encode_4b5b_bits(bits: &[u8]) -> (out: Vec<u8>)
    ensures
        out@ == fourb_fiveb_bits(bits@),
{
    let num_nibbles: usize = bits.len() / 4 + if bits.len() % 4 == 0 { 0 } else { 1 };
    assert(num_nibbles == (bits@.len() + 3) / 4);
    let mut out: Vec<u8> = Vec::new();
    let mut i: usize = 0;
    while i < num_nibbles
        invariant
            i <= num_nibbles,
            num_nibbles == (bits@.len() + 3) / 4,
            bits@.len() <= usize::MAX,
            out@.len() == 5 * i,
            forall|p: int| 0 <= p < out@.len() ==> #[trigger] out@[p] == fourb_fiveb_bits(bits@)[p],
        decreases num_nibbles - i,
    {
        assert(4 * i < bits@.len());
        let start: usize = i * 4;
        let end: usize = if bits.len() - start >= 4 { start + 4 } else { bits.len() };
        let mut nibble: u8 = 0;
        let mut j: usize = 0;
        let ghost rest = bits@.subrange(4 * i, bits@.len() as int);
        while j < end - start
            invariant
                start == 4 * i,
                start < end <= bits@.len(),
                end - start <= 4,
                end - start == (if rest.len() < 4 { rest.len() } else { 4 }),
                rest == bits@.subrange(4 * i, bits@.len() as int),
                j <= end - start,
                nibble == nibble_prefix(rest, j as nat),
            decreases end - start - j,
        {
            if bits[start + j] != 0 {
                nibble = nibble | (1u8 << ((3 - j) as u8));
            }
            j += 1;
        }
        assert(nibble == nibble_at(bits@, i as int));
        proof {
            lemma_nibble_range(rest, j as nat);
        }
        let symbol = FOURB_FIVEB_ENCODE_TABLE[nibble as usize];
        let mut k: usize = 0;
        while k < 5
            invariant
                k <= 5,
                i < num_nibbles,
                num_nibbles == (bits@.len() + 3) / 4,
                nibble == nibble_at(bits@, i as int),
                nibble < 16,
                symbol == FOURB_FIVEB_ENCODE_TABLE@[nibble as int],
                out@.len() == 5 * i + k,
                forall|p: int| 0 <= p < out@.len() ==> #[trigger] out@[p] == fourb_fiveb_bits(bits@)[p],
            decreases 5 - k,
        {
            out.push((symbol >> ((4 - k) as u8)) & 1u8);
            proof {
                let p = 5 * i + k;
                assert(p / 5 == i && p % 5 == k);
            }
            k += 1;
        }
        i += 1;
    }
    assert(out@ =~= fourb_fiveb_bits(bits@));
    out
}

proof fn lemma_nibble_range(bits: Seq<u8>, n: nat)
    requires
        n <= 4,
        n <= bits.len(),
    ensures
        nibble_prefix(bits, n) < 16,
    decreases n,
{
    if n > 0 {
        lemma_nibble_range(bits, (n - 1) as nat);
        let b = nibble_prefix(bits, (n - 1) as nat);
        let k = (n - 1) as u8;
        assert(k < 4 && b < 16 ==> (b | (1u8 << (3 - k) as u8)) < 16) by (bit_vector);
    }
}

/// The 5-bit symbol formed by `five[5i..5i+5]`, MSB first (each entry
/// shifted into place and or-ed in).
pub open spec fn symbol_at(five: Seq<u8>, i: int) -> u8 {
    (five[5 * i] << 4u8) | (five[5 * i + 1] << 3u8) | (five[5 * i + 2] << 2u8) | (five[5 * i
        + 3] << 1u8) | five[5 * i + 4]
}

/// The four bits of a nibble, MSB first.
pub open spec fn nibble_bits(n: u8) -> Seq<u8> {
    Seq::new(4, |k: int| (n >> ((3 - k) as u8)) & 1u8)
}

/// Bits decoded from symbols `i..num` of a 5B stream, stopping at the first
/// symbol that is not a code symbol.
pub open spec fn fiveb_decode_from(five: Seq<u8>, i: nat, num: nat) -> Seq<u8>
    decreases num - i,
{
    if i >= num {
        Seq::empty()
    } else {
        match nibble_of_symbol(symbol_at(five, i as int)) {
            Some(n) => nibble_bits(n) + fiveb_decode_from(five, i + 1, num),
            None => Seq::empty(),
        }
    }
}

/// Bits decoded from a whole 5B stream (trailing bits that do not fill a
/// symbol are ignored).
pub open spec fn fiveb_decode(five: Seq<u8>) -> Seq<u8> {
    fiveb_decode_from(five, 0, five.len() / 5)
}

/// Decode a 5B bit stream: each group of five bits forms a symbol whose
/// nibble is emitted MSB first; decoding stops at the first invalid symbol.
pub fn decode_4b5b_bits(five_b_bits: &[u8]) -> (out: Vec<u8>)
    ensures
        out@ == fiveb_decode(five_b_bits@),
{
    let num_nibbles = five_b_bits.len() / 5;
    let mut out: Vec<u8> = Vec::new();
    let mut i: usize = 0;
    while i < num_nibbles
        invariant
            i <= num_nibbles,
            num_nibbles == five_b_bits@.len() / 5,
            five_b_bits@.len() <= usize::MAX,
            out@ + fiveb_decode_from(five_b_bits@, i as nat, num_nibbles as nat) == fiveb_decode(
                five_b_bits@,
            ),
        decreases num_nibbles - i,
    {
        let start = i * 5;
        let mut symbol: u8 = 0;
        let mut j: usize = 0;
        while j < 5
            invariant
                j <= 5,
                start == 5 * i,
                i < num_nibbles,
                num_nibbles == five_b_bits@.len() / 5,
                five_b_bits@.len() <= usize::MAX,
                symbol == partial_symbol(five_b_bits@, i as int, j as nat),
            decreases 5 - j,
        {
            symbol = symbol | (five_b_bits[start + j] << ((4 - j) as u8));
            j += 1;
        }
        proof {
            lemma_partial_symbol(five_b_bits@, i as int);
        }
        match decode_4b5b_symbol(symbol) {
            Some(nibble) => {
                let mut k: usize = 0;
                let ghost before = out@;
                while k < 4
                    invariant
                        k <= 4,
                        out@ == before + nibble_bits(nibble).subrange(0, k as int),
                    decreases 4 - k,
                {
                    out.push((nibble >> ((3 - k) as u8)) & 1u8);
                    assert(nibble_bits(nibble).subrange(0, k + 1) =~= nibble_bits(nibble).subrange(
                        0,
                        k as int,
                    ).push((nibble >> ((3 - k) as u8)) & 1u8));
                    k += 1;
                }
                assert(nibble_bits(nibble).subrange(0, 4) =~= nibble_bits(nibble));
                assert(out@ + fiveb_decode_from(five_b_bits@, (i + 1) as nat, num_nibbles as nat)
                    =~= before + fiveb_decode_from(five_b_bits@, i as nat, num_nibbles as nat));
            },
            None => {
                assert(out@ =~= out@ + fiveb_decode_from(five_b_bits@, i as nat, num_nibbles as nat));
                return out;
            },
        }
        i += 1;
    }
    assert(out@ =~= out@ + fiveb_decode_from(five_b_bits@, i as nat, num_nibbles as nat));
    out
}

/// Symbol `i` with only its first `j` bits or-ed in.
pub open spec fn partial_symbol(five: Seq<u8>, i: int, j: nat) -> u8
    decreases j,
{
    if j == 0 {
        0
    } else {
        partial_symbol(five, i, (j - 1) as nat) | (five[5 * i + j - 1] << ((5 - j) as u8))
    }
}

proof fn lemma_partial_symbol(five: Seq<u8>, i: int)
    ensures
        partial_symbol(five, i, 5) == symbol_at(five, i),
{
    reveal_with_fuel(partial_symbol, 6);
    let a = five[5 * i];
    let b = five[5 * i + 1];
    let c = five[5 * i + 2];
    let d = five[5 * i + 3];
    let e = five[5 * i + 4];
    assert(((((0u8 | (a << 4u8)) | (b << 3u8)) | (c << 2u8)) | (d << 1u8)) | (e << 0u8) == (a << 4u8)
        | (b << 3u8) | (c << 2u8) | (d << 1u8) | e) by (bit_vector);
}

/// NRZI level (+1 or -1) after encoded bit `i`, starting from +1 before
/// the first bit: a 1 inverts the level, anything else keeps it.
pub open spec fn nrzi_level(encoded: Seq<u8>, i: int) -> int
    decreases i + 1,
{
    if i < 0 {
        1
    } else if encoded[i] == 1 {
        -nrzi_level(encoded, i - 1)
    } else {
        nrzi_level(encoded, i - 1)
    }
}

proof fn lemma_nrzi_level_range(encoded: Seq<u8>, i: int)
    ensures
        nrzi_level(encoded, i) == 1 || nrzi_level(encoded, i) == -1,
    decreases i + 1,
{
    if i >= 0 {
        lemma_nrzi_level_range(encoded, i - 1);
    }
}

/// NRZI levels of an encoded bit stream, each held for
/// `samples_per_level` samples, starting from the high level.
pub fn nrzi_levels(encoded: &[u8], samples_per_level: usize) -> (levels: Vec<i8>)
    requires
        encoded@.len() * samples_per_level <= usize::MAX,
    ensures
        levels@.len() == encoded@.len() * samples_per_level,
        forall|p: int|
            0 <= p < levels@.len() ==> #[trigger] levels@[p] == nrzi_level(
                encoded@,
                p / (samples_per_level as int),
            ),
{
    let ghost s = samples_per_level as int;
    let mut levels: Vec<i8> = Vec::new();
    let mut current_level: i8 = 1;
    let mut i: usize = 0;
    while i < encoded.len()
        invariant
            i <= encoded@.len(),
            encoded@.len() * samples_per_level <= usize::MAX,
            s == samples_per_level,
            current_level == nrzi_level(encoded@, i - 1),
            levels@.len() == i * samples_per_level,
            forall|p: int| 0 <= p < levels@.len() ==> #[trigger] levels@[p] == nrzi_level(encoded@, p / s),
        decreases encoded.len() - i,
    {
        proof {
            lemma_nrzi_level_range(encoded@, i - 1);
        }
        if encoded[i] == 1 {
            current_level = -current_level;
        }
        assert((i + 1) * samples_per_level <= encoded@.len() * samples_per_level) by (nonlinear_arith)
            requires
                i < encoded@.len(),
        ;
        let mut h: usize = 0;
        while h < samples_per_level
            invariant
                i < encoded@.len(),
                (i + 1) * samples_per_level <= usize::MAX,
                s == samples_per_level,
                h <= samples_per_level,
                current_level == nrzi_level(encoded@, i as int),
                levels@.len() == i * samples_per_level + h,
                forall|p: int| 0 <= p < levels@.len() ==> #[trigger] levels@[p] == nrzi_level(encoded@, p / s),
            decreases samples_per_level - h,
        {
            proof {
                let p: int = i * samples_per_level + h;
                assert(p == (i as int) * s + h) by (nonlinear_arith)
                    requires
                        p == i * samples_per_level + h,
                        s == samples_per_level,
                ;
                vstd::arithmetic::div_mod::lemma_fundamental_div_mod_converse(p, s, i as int, h as int);
            }
            levels.push(current_level);
            h += 1;
        }
        assert(i * samples_per_level + samples_per_level == (i + 1) * samples_per_level) by (nonlinear_arith);
        i += 1;
    }
    levels
}

/// Number of samples that `num_bits` bits take in 4B/5B: nibbles rounded
/// up, five symbol bits each, `samples_per_level` samples per symbol bit.
pub fn fourb_fiveb_samples_for_bits(num_bits: usize, samples_per_level: usize) -> (n: usize)
    requires
        ((num_bits + 3) / 4) * 5 <= usize::MAX,
        ((num_bits + 3) / 4) * 5 * samples_per_level <= usize::MAX,
    ensures
        n == ((num_bits + 3) / 4) * 5 * samples_per_level,
{
    let num_nibbles: usize = num_bits / 4 + if num_bits % 4 == 0 { 0 } else { 1 };
    assert(num_nibbles == (num_bits + 3) / 4);
    let num_5b_symbols: usize = num_nibbles * 5;
    num_5b_symbols * samples_per_level
}

/// `bits` as 0/1 values (any non-zero entry is 1), zero-padded to a whole
/// number of nibbles.
pub open spec fn padded_bits(bits: Seq<u8>) -> Seq<u8> {
    Seq::new(
        4 * ((bits.len() + 3) / 4),
        |i: int|
            if i < bits.len() && bits[i] != 0 {
                1u8
            } else {
                0u8
            },
    )
}

proof fn lemma_set_bit(b: u8, m: u8, k: u8)
    by (bit_vector)
    requires
        m < 4,
        k < 4,
    ensures
        ((b | (1u8 << (3 - m) as u8)) >> (3 - k) as u8) & 1u8 == if k == m {
            1u8
        } else {
            (b >> (3 - k) as u8) & 1u8
        },
        (0u8 >> (3 - k) as u8) & 1u8 == 0u8,
{
}

proof fn lemma_nibble_prefix_bit(r: Seq<u8>, n: nat, k: int)
    requires
        n <= 4,
        n <= r.len(),
        0 <= k < 4,
    ensures
        (nibble_prefix(r, n) >> ((3 - k) as u8)) & 1u8 == if k < n && r[k] != 0 {
            1u8
        } else {
            0u8
        },
    decreases n,
{
    if n == 0 {
        lemma_set_bit(0, 0, k as u8);
    } else {
        lemma_nibble_prefix_bit(r, (n - 1) as nat, k);
        let b = nibble_prefix(r, (n - 1) as nat);
        lemma_set_bit(b, (n - 1) as u8, k as u8);
    }
}

proof fn lemma_symbol_bits(x: u8)
    by (bit_vector)
    requires
        x < 32,
    ensures
        (((x >> 4u8) & 1u8) << 4u8) | (((x >> 3u8) & 1u8) << 3u8) | (((x >> 2u8) & 1u8) << 2u8) | ((
        (x >> 1u8) & 1u8) << 1u8) | ((x >> 0u8) & 1u8) == x,
{
}

proof fn lemma_encoded_symbol(bits: Seq<u8>, i: int)
    requires
        0 <= i < (bits.len() + 3) / 4,
    ensures
        nibble_at(bits, i) < 16,
        symbol_at(fourb_fiveb_bits(bits), i) == FOURB_FIVEB_ENCODE_TABLE@[nibble_at(bits, i) as int],
{
    let rest = bits.subrange(4 * i, bits.len() as int);
    lemma_nibble_range(rest, if rest.len() < 4 { rest.len() } else { 4 });
    let e = fourb_fiveb_bits(bits);
    let x = FOURB_FIVEB_ENCODE_TABLE@[nibble_at(bits, i) as int];
    lemma_table_values();
    assert(x < 32);
    assert forall|j: int| 0 <= j < 5 implies #[trigger] e[5 * i + j] == (x >> ((4 - j) as u8)) & 1u8 by {
        assert((5 * i + j) / 5 == i && (5 * i + j) % 5 == j);
    }
    assert(e[5 * i] == (x >> 4u8) & 1u8);
    assert(e[5 * i + 4] == (x >> 0u8) & 1u8);
    lemma_symbol_bits(x);
}

proof fn lemma_decode_from(bits: Seq<u8>, i: nat)
    requires
        i <= (bits.len() + 3) / 4,
    ensures
        fiveb_decode_from(fourb_fiveb_bits(bits), i, ((bits.len() + 3) / 4) as nat) == padded_bits(
            bits,
        ).subrange(4 * (i as int), 4 * ((bits.len() + 3) / 4) as int),
    decreases (bits.len() + 3) / 4 - i,
{
    let num = ((bits.len() + 3) / 4) as nat;
    let p = padded_bits(bits);
    if i < num {
        lemma_decode_from(bits, i + 1);
        lemma_encoded_symbol(bits, i as int);
        let n = nibble_at(bits, i as int);
        lemma_symbol_roundtrip(n as int);
        let rest = bits.subrange(4 * (i as int), bits.len() as int);
        let m = if rest.len() < 4 { rest.len() } else { 4 };
        assert forall|k: int| 0 <= k < 4 implies #[trigger] nibble_bits(n)[k] == p[4 * i + k] by {
            lemma_nibble_prefix_bit(rest, m, k);
        }
        assert(nibble_bits(n) + p.subrange(4 * (i as int + 1), 4 * num as int) =~= p.subrange(
            4 * (i as int),
            4 * num as int,
        ));
    } else {
        assert(p.subrange(4 * (i as int), 4 * num as int) =~= Seq::<u8>::empty());
    }
}

/// Decoding the 4B/5B stream of `bits` gives back the bits (as 0/1 values,
/// zero-padded to whole nibbles).
pub proof fn lemma_fourb_fiveb_roundtrip(bits: Seq<u8>)
    ensures
        fiveb_decode(fourb_fiveb_bits(bits)) == padded_bits(bits),
{
    let e = fourb_fiveb_bits(bits);
    let num = (bits.len() + 3) / 4;
    assert(e.len() / 5 == num);
    lemma_decode_from(bits, 0);
    assert(padded_bits(bits).subrange(0, 4 * (num as int)) =~= padded_bits(bits));
}

} // verus!
