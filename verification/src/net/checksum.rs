//! The Internet checksum: one's complement of the one's-complement sum of
//! the 16-bit big-endian words of a byte sequence (an odd last byte is
//! padded with zero).

use vstd::prelude::*;
use crate::bytes::be16;

verus! {

/// Big-endian 16-bit word `k` of `bytes`, the missing low byte of an odd
/// tail counting as zero.
pub open spec fn word_at(bytes: Seq<u8>, k: int) -> int {
    bytes[2 * k] * 256 + if 2 * k + 1 < bytes.len() {
        bytes[2 * k + 1] as int
    } else {
        0
    }
}

/// Sum of the first `n` words in a 32-bit accumulator (wrapping).
pub open spec fn word_sum(bytes: Seq<u8>, n: nat) -> int
    decreases n,
{
    if n == 0 {
        0
    } else {
        (word_sum(bytes, (n - 1) as nat) + word_at(bytes, n - 1)) % 0x1_0000_0000
    }
}

/// Fold the carries of an accumulator back into its low 16 bits until it
/// fits in 16 bits.
pub open spec fn fold_carries(s: int) -> int
    decreases s,
{
    if s < 0x1_0000 {
        s
    } else {
        proof {
            assert(s % 0x1_0000 + s / 0x1_0000 < s) by (nonlinear_arith)
                requires
                    s >= 0x1_0000,
            ;
        }
        fold_carries(s % 0x1_0000 + s / 0x1_0000)
    }
}

/// The one's-complement sum of all words of `bytes`, carries folded.
pub open spec fn folded_sum(bytes: Seq<u8>) -> int {
    fold_carries(word_sum(bytes, ((bytes.len() + 1) / 2) as nat))
}

/// Internet checksum of a byte sequence.
pub open spec fn internet_checksum(bytes: Seq<u8>) -> u16 {
    !(fold_carries(word_sum(bytes, ((bytes.len() + 1) / 2) as nat)) as u16)
}

proof fn lemma_fold_step(s: u32)
    by (bit_vector)
    ensures
        s >> 16u32 == s / 0x1_0000,
        s & 0xFFFFu32 == s % 0x1_0000,
{
}

proof fn lemma_fold_range(s: int)
    requires
        0 <= s,
    ensures
        0 <= fold_carries(s) < 0x1_0000,
    decreases s,
{
    if s >= 0x1_0000 {
        assert(s % 0x1_0000 + s / 0x1_0000 < s) by (nonlinear_arith)
            requires
                s >= 0x1_0000,
        ;
        lemma_fold_range(s % 0x1_0000 + s / 0x1_0000);
    }
}

/// Compute the Internet checksum of `bytes`.
pub fn checksum(bytes: &[u8]) -> (c: u16)
    ensures
        c == internet_checksum(bytes@),
{
    let n: usize = bytes.len() / 2 + bytes.len() % 2;
    assert(n == (bytes@.len() + 1) / 2);
    let mut sum: u32 = 0;
    let mut k: usize = 0;
    while k < n
        invariant
            k <= n,
            n == (bytes@.len() + 1) / 2,
            bytes@.len() <= usize::MAX,
            sum == word_sum(bytes@, k as nat),
        decreases n - k,
    {
        let at: usize = 2 * k;
        let hi = bytes[at];
        let lo: u8 = if at + 1 < bytes.len() {
            bytes[at + 1]
        } else {
            0
        };
        let word: u32 = (hi as u32) * 256 + (lo as u32);
        sum = sum.wrapping_add(word);
        k += 1;
    }
    proof {
        lemma_fold_range(sum as int);
    }
    while (sum >> 16u32) != 0
        invariant
            fold_carries(sum as int) == fold_carries(word_sum(bytes@, n as nat)),
        decreases sum,
    {
        proof {
            lemma_fold_step(sum);
        }
        sum = (sum & 0xFFFFu32) + (sum >> 16u32);
    }
    proof {
        lemma_fold_step(sum);
    }
    !(sum as u16)
}

/// Sum of the first `n` words, without wrapping.
pub open spec fn plain_word_sum(bytes: Seq<u8>, n: nat) -> int
    decreases n,
{
    if n == 0 {
        0
    } else {
        plain_word_sum(bytes, (n - 1) as nat) + word_at(bytes, n - 1)
    }
}

proof fn lemma_word_bound(bytes: Seq<u8>, k: int)
    ensures
        0 <= word_at(bytes, k) <= 0xFFFF,
{
}

/// Up to 65536 words the 32-bit accumulator never wraps.
proof fn lemma_word_sum_plain(bytes: Seq<u8>, n: nat)
    requires
        n <= 0x1_0000,
    ensures
        word_sum(bytes, n) == plain_word_sum(bytes, n),
        0 <= plain_word_sum(bytes, n) <= n * 0xFFFF,
    decreases n,
{
    if n > 0 {
        lemma_word_sum_plain(bytes, (n - 1) as nat);
        lemma_word_bound(bytes, n - 1);
        assert(plain_word_sum(bytes, n) < 0x1_0000_0000);
        vstd::arithmetic::div_mod::lemma_small_mod(plain_word_sum(bytes, n) as nat, 0x1_0000_0000);
    }
}

/// Folding carries keeps the value modulo 0xFFFF, and keeps it positive.
proof fn lemma_fold_mod(s: int)
    requires
        0 <= s,
    ensures
        fold_carries(s) % 0xFFFF == s % 0xFFFF,
        s > 0 ==> fold_carries(s) > 0,
    decreases s,
{
    if s >= 0x1_0000 {
        let q = s / 0x1_0000;
        let r = s % 0x1_0000;
        assert(s % 0x1_0000 + s / 0x1_0000 < s) by (nonlinear_arith)
            requires
                s >= 0x1_0000,
        ;
        assert((r + q) % 0xFFFF == s % 0xFFFF) by (nonlinear_arith)
            requires
                q == s / 0x1_0000,
                r == s % 0x1_0000,
                s >= 0,
        {
            assert(s == 0x1_0000 * q + r);
            assert(s == 0xFFFF * q + (q + r));
            vstd::arithmetic::div_mod::lemma_mod_multiples_vanish(q, q + r, 0xFFFF);
        }
        vstd::arithmetic::div_mod::lemma_fundamental_div_mod(s, 0x1_0000);
        assert(r + q > 0) by (nonlinear_arith)
            requires
                s == 0x1_0000 * q + r,
                0 <= r < 0x1_0000,
                s >= 0x1_0000,
        ;
        lemma_fold_mod(r + q);
    }
}

proof fn lemma_complement(f: u16)
    by (bit_vector)
    ensures
        (!f) as int == 0xFFFF - f,
        !(0xFFFFu16) == 0u16,
{
}

/// Words that differ only at word `pos` sum apart by the difference there.
proof fn lemma_sum_with_word(zeroed: Seq<u8>, with: Seq<u8>, pos: int, n: nat)
    requires
        zeroed.len() == with.len(),
        0 <= pos,
        2 * pos + 1 < zeroed.len(),
        zeroed[2 * pos] == 0,
        zeroed[2 * pos + 1] == 0,
        forall|i: int| 0 <= i < zeroed.len() && i != 2 * pos && i != 2 * pos + 1 ==> zeroed[i] == with[i],
        n <= (zeroed.len() + 1) / 2,
    ensures
        plain_word_sum(with, n) == plain_word_sum(zeroed, n) + if pos < n {
            word_at(with, pos)
        } else {
            0
        },
    decreases n,
{
    if n > 0 {
        lemma_sum_with_word(zeroed, with, pos, (n - 1) as nat);
        let k = n - 1;
        if k != pos {
            if 2 * k < zeroed.len() {
                assert(zeroed[2 * k] == with[2 * k]);
                if 2 * k + 1 < zeroed.len() {
                    assert(zeroed[2 * k + 1] == with[2 * k + 1]);
                }
            }
        }
    }
}

/// A checksum inserted in its field makes the data check: when the
/// checksum field (word `pos`) of `zeroed` is zero and `with` is `zeroed`
/// with its Internet checksum written there, the one's-complement sum of
/// `with` folds to 0xFFFF, so `with` checksums to zero.
pub proof fn lemma_checksum_verifies(zeroed: Seq<u8>, with: Seq<u8>, pos: int)
    requires
        zeroed.len() == with.len(),
        zeroed.len() <= 0x2_0000,
        0 <= pos,
        2 * pos + 1 < zeroed.len(),
        zeroed[2 * pos] == 0,
        zeroed[2 * pos + 1] == 0,
        with[2 * pos] == be16(internet_checksum(zeroed))[0],
        with[2 * pos + 1] == be16(internet_checksum(zeroed))[1],
        forall|i: int| 0 <= i < zeroed.len() && i != 2 * pos && i != 2 * pos + 1 ==> zeroed[i] == with[i],
    ensures
        folded_sum(with) == 0xFFFF,
        internet_checksum(with) == 0,
{
    let n = ((zeroed.len() + 1) / 2) as nat;
    lemma_word_sum_plain(zeroed, n);
    lemma_word_sum_plain(with, n);
    lemma_sum_with_word(zeroed, with, pos, n);
    let s0 = plain_word_sum(zeroed, n);
    let f = fold_carries(s0);
    lemma_fold_range(s0);
    lemma_fold_mod(s0);
    let c = internet_checksum(zeroed);
    lemma_complement(f as u16);
    assert(c as int == 0xFFFF - f);
    crate::bytes::lemma_be16_roundtrip(c);
    assert(word_at(with, pos) == c);
    let s1 = s0 + c;
    assert(plain_word_sum(with, n) == s1);
    assert(s1 % 0xFFFF == 0) by (nonlinear_arith)
        requires
            s1 == s0 + 0xFFFF - f,
            f % 0xFFFF == s0 % 0xFFFF,
            0 <= f,
            0 <= s0,
    {
        vstd::arithmetic::div_mod::lemma_fundamental_div_mod(s0, 0xFFFF);
        vstd::arithmetic::div_mod::lemma_fundamental_div_mod(f, 0xFFFF);
        vstd::arithmetic::div_mod::lemma_mod_multiples_vanish(s0 / 0xFFFF - f / 0xFFFF + 1, 0, 0xFFFF);
    }
    assert(s1 > 0);
    lemma_fold_range(s1);
    lemma_fold_mod(s1);
    assert(fold_carries(s1) == 0xFFFF);
    lemma_complement(0xFFFFu16);
}

} // verus!
