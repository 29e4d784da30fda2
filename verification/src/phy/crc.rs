//! CRC-8 (polynomial x^8 + x^2 + x + 1) and MSB-first bit/byte conversion.

use vstd::prelude::*;

verus! {

/// Generator polynomial x^8 + x^2 + x + 1 (the x^8 term is implicit).
pub const CRC8_POLYNOMIAL: u8 = 0x07;

/// One shift of the CRC register, feeding back the polynomial when the
/// top bit falls out.
pub open spec fn crc8_shift_once(crc: u8) -> u8 {
    if crc & 0x80 != 0 {
        ((crc << 1u8) ^ CRC8_POLYNOMIAL) as u8
    } else {
        (crc << 1u8) as u8
    }
}

/// `n` register shifts.
pub open spec fn crc8_shift(crc: u8, n: nat) -> u8
    decreases n,
{
    if n == 0 {
        crc
    } else {
        crc8_shift_once(crc8_shift(crc, (n - 1) as nat))
    }
}

/// Register after absorbing one byte.
pub open spec fn crc8_update(crc: u8, byte: u8) -> u8 {
    crc8_shift(crc ^ byte, 8)
}

/// CRC-8 of a byte sequence, starting from a zero register.
pub open spec fn crc8(data: Seq<u8>) -> u8
    decreases data.len(),
{
    if data.len() == 0 {
        0
    } else {
        crc8_update(crc8(data.drop_last()), data.last())
    }
}

/// Calculate the CRC-8 checksum of `data`.
pub fn calculate_crc8(data: &[u8]) -> (crc: u8)
    ensures
        crc == crc8(data@),
{
    let mut crc: u8 = 0x00;
    let mut i: usize = 0;
    while i < data.len()
        invariant
            i <= data.len(),
            crc == crc8(data@.subrange(0, i as int)),
        decreases data.len() - i,
    {
        let byte = data[i];
        crc = crc ^ byte;
        let ghost start = crc;
        let mut k: usize = 0;
        while k < 8
            invariant
                k <= 8,
                crc == crc8_shift(start, k as nat),
            decreases 8 - k,
        {
            if (crc & 0x80) != 0 {
                crc = (crc << 1u8) ^ CRC8_POLYNOMIAL;
            } else {
                crc = crc << 1u8;
            }
            k += 1;
        }
        assert(data@.subrange(0, i + 1).drop_last() =~= data@.subrange(0, i as int));
        i += 1;
    }
    assert(data@.subrange(0, data.len() as int) =~= data@);
    crc
}

/// Check that `expected_crc` is the CRC-8 of `data`.
pub fn verify_crc8(data: &[u8], expected_crc: u8) -> (ok: bool)
    ensures
        ok == (crc8(data@) == expected_crc),
{
    calculate_crc8(data) == expected_crc
}

/// Bit `i` (0 = most significant) of `byte`, as 0 or 1.
pub open spec fn bit_of(byte: u8, i: int) -> u8 {
    (byte >> ((7 - i) as u8)) & 1u8
}

/// The eight bits of `byte`, most significant first.
pub open spec fn byte_bits(byte: u8) -> Seq<u8> {
    Seq::new(8, |i: int| bit_of(byte, i))
}

/// Convert a byte to its eight bits, most significant first.
pub fn byte_to_bits(byte: u8) -> (bits: [u8; 8])
    ensures
        bits@ == byte_bits(byte),
{
    let mut bits = [0u8; 8];
    let mut i: usize = 0;
    while i < 8
        invariant
            i <= 8,
            bits@.len() == 8,
            forall|j: int| 0 <= j < i ==> bits@[j] == bit_of(byte, j),
        decreases 8 - i,
    {
        bits[i] = (byte >> ((7 - i) as u8)) & 1u8;
        i += 1;
    }
    assert(bits@ =~= byte_bits(byte));
    bits
}

/// The byte assembled from the first `n` bits of `bits` (MSB first): bit
/// position `i` is set exactly when `bits[i]` is non-zero.
pub open spec fn bits_prefix_value(bits: Seq<u8>, n: nat) -> u8
    decreases n,
{
    if n == 0 {
        0
    } else {
        let b = bits_prefix_value(bits, (n - 1) as nat);
        if bits[n - 1] != 0 {
            b | (1u8 << ((8 - n) as u8))
        } else {
            b
        }
    }
}

/// The byte that at most the first eight entries of `bits` spell out.
pub open spec fn bits_value(bits: Seq<u8>) -> u8 {
    bits_prefix_value(bits, if bits.len() < 8 { bits.len() } else { 8 })
}

/// Convert up to eight bits (MSB first; any non-zero entry counts as 1) to a
/// byte. Missing trailing bits count as 0; entries past the eighth are ignored.
pub fn bits_to_byte(bits: &[u8]) -> (byte: u8)
    ensures
        byte == bits_value(bits@),
{
    let n: usize = if bits.len() < 8 { bits.len() } else { 8 };
    let mut byte: u8 = 0;
    let mut i: usize = 0;
    while i < n
        invariant
            i <= n,
            n <= bits@.len(),
            n <= 8,
            byte == bits_prefix_value(bits@, i as nat),
        decreases n - i,
    {
        if bits[i] != 0 {
            byte = byte | (1u8 << ((7 - i) as u8));
        }
        i += 1;
    }
    byte
}

proof fn lemma_prefix_step(b: u8, k: u8)
    by (bit_vector)
    requires
        k < 8,
    ensures
        ((b >> (7 - k) as u8) & 1u8) != 0 ==> ((b & (0xFFu8 << (8 - k) as u8)) | (1u8 << (7
            - k) as u8)) == b & (0xFFu8 << (7 - k) as u8),
        ((b >> (7 - k) as u8) & 1u8) == 0 ==> (b & (0xFFu8 << (8 - k) as u8)) == b & (0xFFu8
            << (7 - k) as u8),
{
}

proof fn lemma_bits_prefix_of_byte(b: u8, n: nat)
    requires
        n <= 8,
    ensures
        bits_prefix_value(byte_bits(b), n) == b & (0xFFu8 << (8 - n) as u8),
    decreases n,
{
    if n == 0 {
        assert(b & (0xFFu8 << 8u8) == 0) by (bit_vector);
    } else {
        lemma_bits_prefix_of_byte(b, (n - 1) as nat);
        let k = (n - 1) as u8;
        lemma_prefix_step(b, k);
        assert(byte_bits(b)[n - 1] == bit_of(b, k as int));
    }
}

/// Converting a byte to bits and back gives the byte.
pub proof fn lemma_byte_bits_roundtrip(b: u8)
    ensures
        bits_value(byte_bits(b)) == b,
{
    lemma_bits_prefix_of_byte(b, 8);
    assert(b & (0xFFu8 << 0u8) == b) by (bit_vector);
}

/// The MSB-first bit expansion of a byte sequence.
pub open spec fn bytes_bits(bytes: Seq<u8>) -> Seq<u8> {
    Seq::new(bytes.len() * 8, |i: int| bit_of(bytes[i / 8], i % 8))
}

/// Convert bytes to bits, eight per byte, most significant bit first.
pub fn bytes_to_bits(bytes: &[u8]) -> (bits: Vec<u8>)
    ensures
        bits@ == bytes_bits(bytes@),
{
    let mut bits: Vec<u8> = Vec::new();
    let mut i: usize = 0;
    while i < bytes.len()
        invariant
            i <= bytes.len(),
            bits@.len() == i * 8,
            forall|k: int| 0 <= k < i * 8 ==> bits@[k] == bit_of(bytes@[k / 8], k % 8),
        decreases bytes.len() - i,
    {
        let byte_bits_arr = byte_to_bits(bytes[i]);
        let mut j: usize = 0;
        while j < 8
            invariant
                j <= 8,
                i < bytes.len(),
                byte_bits_arr@ == byte_bits(bytes@[i as int]),
                bits@.len() == i * 8 + j,
                forall|k: int| 0 <= k < i * 8 + j ==> bits@[k] == bit_of(bytes@[k / 8], k % 8),
            decreases 8 - j,
        {
            bits.push(byte_bits_arr[j]);
            proof {
                let k = i * 8 + j;
                assert(k / 8 == i as int && k % 8 == j as int) by (nonlinear_arith)
                    requires
                        k == i * 8 + j,
                        j < 8,
                ;
            }
            j += 1;
        }
        i += 1;
    }
    assert(bits@ =~= bytes_bits(bytes@));
    bits
}

/// Number of bytes that `n` bits fill, the last one possibly partly.
pub open spec fn bytes_for_bits(n: nat) -> nat {
    (n + 7) / 8
}

/// Bits `[8i, min(8i + 8, len))` of `bits`.
pub open spec fn bits_chunk(bits: Seq<u8>, i: int) -> Seq<u8> {
    bits.subrange(
        8 * i,
        if 8 * i + 8 <= bits.len() {
            8 * i + 8
        } else {
            bits.len() as int
        },
    )
}

/// Pack bits into bytes, eight per byte MSB first; a short final group is
/// padded with zero bits.
pub open spec fn bits_bytes(bits: Seq<u8>) -> Seq<u8> {
    Seq::new(bytes_for_bits(bits.len()), |i: int| bits_value(bits_chunk(bits, i)))
}

/// Convert a bit vector to bytes (MSB first, last byte zero-padded).
pub fn bits_to_bytes(bits: &[u8]) -> (bytes: Vec<u8>)
    ensures
        bytes@ == bits_bytes(bits@),
{
    let num_bytes: usize = bits.len() / 8 + if bits.len() % 8 == 0 { 0 } else { 1 };
    assert(num_bytes == bytes_for_bits(bits@.len() as nat));
    let mut bytes: Vec<u8> = Vec::new();
    let mut i: usize = 0;
    while i < num_bytes
        invariant
            i <= num_bytes,
            num_bytes == bytes_for_bits(bits@.len() as nat),
            bytes@.len() == i,
            forall|k: int| 0 <= k < i ==> bytes@[k] == bits_value(bits_chunk(bits@, k)),
        decreases num_bytes - i,
    {
        assert(8 * i < bits.len()) by (nonlinear_arith)
            requires
                i < num_bytes,
                num_bytes == (bits.len() + 7) / 8,
        ;
        let start: usize = i * 8;
        let end: usize = if bits.len() - start >= 8 { start + 8 } else { bits.len() };
        let bit_slice = vstd::slice::slice_subrange(bits, start, end);
        assert(bit_slice@ == bits_chunk(bits@, i as int));
        bytes.push(bits_to_byte(bit_slice));
        i += 1;
    }
    assert(bytes@ =~= bits_bytes(bits@));
    bytes
}

/// Expanding bytes to bits and packing them again gives the bytes back.
pub proof fn lemma_bytes_bits_roundtrip(bytes: Seq<u8>)
    ensures
        bits_bytes(bytes_bits(bytes)) == bytes,
{
    let bits = bytes_bits(bytes);
    assert(bytes_for_bits(bits.len()) == bytes.len()) by (nonlinear_arith)
        requires
            bits.len() == bytes.len() * 8,
    ;
    assert forall|i: int| 0 <= i < bytes.len() implies #[trigger] bits_value(
        bits_chunk(bits, i),
    ) == bytes[i] by {
        assert(8 * i + 8 <= bits.len()) by (nonlinear_arith)
            requires
                0 <= i < bytes.len(),
                bits.len() == bytes.len() * 8,
        ;
        assert forall|j: int| 0 <= j < 8 implies #[trigger] bits_chunk(bits, i)[j] == byte_bits(
            bytes[i],
        )[j] by {
            assert((8 * i + j) / 8 == i && (8 * i + j) % 8 == j) by (nonlinear_arith)
                requires
                    0 <= j < 8,
            ;
        }
        assert(bits_chunk(bits, i) =~= byte_bits(bytes[i]));
        lemma_byte_bits_roundtrip(bytes[i]);
    }
    assert(bits_bytes(bits) =~= bytes);
}

/// Bytewise exclusive or of two byte sequences (of the length of `a`).
pub open spec fn xor_bytes(a: Seq<u8>, b: Seq<u8>) -> Seq<u8> {
    Seq::new(a.len(), |i: int| a[i] ^ b[i])
}

proof fn lemma_shift_once_linear(x: u8, y: u8)
    by (bit_vector)
    ensures
        (if x & 0x80 != 0 { ((x << 1u8) ^ 0x07u8) as u8 } else { (x << 1u8) as u8 }) ^ (if y & 0x80
            != 0 {
            ((y << 1u8) ^ 0x07u8) as u8
        } else {
            (y << 1u8) as u8
        }) == (if (x ^ y) & 0x80 != 0 {
            (((x ^ y) << 1u8) ^ 0x07u8) as u8
        } else {
            ((x ^ y) << 1u8) as u8
        }),
        x != 0 ==> (if x & 0x80 != 0 { ((x << 1u8) ^ 0x07u8) as u8 } else { (x << 1u8) as u8 }) != 0,
        x == 0 ==> (if x & 0x80 != 0 { ((x << 1u8) ^ 0x07u8) as u8 } else { (x << 1u8) as u8 }) == 0,
{
}

proof fn lemma_shift_linear(x: u8, y: u8, n: nat)
    ensures
        crc8_shift(x, n) ^ crc8_shift(y, n) == crc8_shift(x ^ y, n),
        x != 0 ==> crc8_shift(x, n) != 0,
        x == 0 ==> crc8_shift(x, n) == 0,
    decreases n,
{
    if n > 0 {
        lemma_shift_linear(x, y, (n - 1) as nat);
        lemma_shift_once_linear(crc8_shift(x, (n - 1) as nat), crc8_shift(y, (n - 1) as nat));
        lemma_shift_once_linear(crc8_shift(x, (n - 1) as nat), 0);
    }
}

proof fn lemma_xor_regroup(c1: u8, b1: u8, c2: u8, b2: u8)
    by (bit_vector)
    ensures
        (c1 ^ b1) ^ (c2 ^ b2) == (c1 ^ c2) ^ (b1 ^ b2),
        0u8 ^ 0u8 == 0u8,
{
}

/// CRC-8 is linear: for inputs of equal length, the CRC of their bytewise
/// exclusive or is the exclusive or of their CRCs.
pub proof fn lemma_crc8_linear(a: Seq<u8>, b: Seq<u8>)
    requires
        a.len() == b.len(),
    ensures
        crc8(a) ^ crc8(b) == crc8(xor_bytes(a, b)),
    decreases a.len(),
{
    if a.len() == 0 {
        lemma_xor_regroup(0, 0, 0, 0);
    } else {
        let x = xor_bytes(a, b);
        lemma_crc8_linear(a.drop_last(), b.drop_last());
        assert(x.drop_last() =~= xor_bytes(a.drop_last(), b.drop_last()));
        let c1 = crc8(a.drop_last());
        let c2 = crc8(b.drop_last());
        lemma_xor_regroup(c1, a.last(), c2, b.last());
        lemma_shift_linear(c1 ^ a.last(), c2 ^ b.last(), 8);
    }
}

proof fn lemma_crc8_zeros(x: Seq<u8>)
    requires
        forall|j: int| 0 <= j < x.len() ==> x[j] == 0,
    ensures
        crc8(x) == 0,
    decreases x.len(),
{
    if x.len() > 0 {
        lemma_crc8_zeros(x.drop_last());
        lemma_xor_regroup(0, 0, 0, 0);
        lemma_shift_linear(0, 0, 8);
    }
}

proof fn lemma_crc8_single_nonzero(x: Seq<u8>, i: int)
    requires
        0 <= i < x.len(),
        x[i] != 0,
        forall|j: int| 0 <= j < x.len() && j != i ==> x[j] == 0,
    ensures
        crc8(x) != 0,
    decreases x.len(),
{
    let c = crc8(x.drop_last());
    if i == x.len() - 1 {
        lemma_crc8_zeros(x.drop_last());
        let e = x.last();
        assert(c ^ e == e) by (bit_vector)
            requires
                c == 0u8,
        ;
        lemma_shift_linear(x.last(), 0, 8);
    } else {
        lemma_crc8_single_nonzero(x.drop_last(), i);
        let e = x.last();
        assert(c ^ e == c) by (bit_vector)
            requires
                e == 0u8,
        ;
        lemma_shift_linear(c, 0, 8);
    }
}

/// CRC-8 detects any change confined to one byte: inputs of equal length
/// that differ in exactly one byte have different CRCs.
pub proof fn lemma_crc8_detects_single_byte_change(a: Seq<u8>, b: Seq<u8>, i: int)
    requires
        a.len() == b.len(),
        0 <= i < a.len(),
        a[i] != b[i],
        forall|j: int| 0 <= j < a.len() && j != i ==> a[j] == b[j],
    ensures
        crc8(a) != crc8(b),
{
    let x = xor_bytes(a, b);
    lemma_crc8_linear(a, b);
    assert forall|j: int| 0 <= j < x.len() && j != i implies x[j] == 0 by {
        let v = a[j];
        assert(v ^ v == 0) by (bit_vector);
    }
    let (p, q) = (a[i], b[i]);
    assert(p ^ q != 0) by (bit_vector)
        requires
            p != q,
    ;
    lemma_crc8_single_nonzero(x, i);
    let (c1, c2) = (crc8(a), crc8(b));
    assert(c1 ^ c2 != 0 ==> c1 != c2) by (bit_vector);
}

} // verus!
