//! Reed-Solomon protected blocks: data followed by `ecc_len` correction
//! bytes. The Galois-field coding itself is done by the `reed-solomon`
//! crate; this module frames blocks around it and interprets its answers.

use vstd::prelude::*;
use reed_solomon::{Decoder, DecoderError, Encoder};
use crate::bytes::append_bytes;

verus! {

#[verifier::external_type_specification]
#[verifier::external_body]
pub struct ExDecoderError(reed_solomon::DecoderError);

/// The correction bytes that `reed_solomon::Encoder` (built for `ecc_len`
/// correction bytes) appends to `data`.
pub uninterp spec fn rs_ecc(ecc_len: nat, data: Seq<u8>) -> Seq<u8>;

/// What `reed_solomon::Decoder::correct` (built for `ecc_len` correction
/// bytes) answers for block `msg` and the optional erasure positions: the
/// whole corrected block (data then correction bytes), or `None` when it
/// reports the block as unrecoverable.
pub uninterp spec fn rs_correction(ecc_len: nat, msg: Seq<u8>) -> Option<Seq<u8>>;

/// `block` is data followed by exactly the correction bytes the encoder
/// computes for that data.
pub open spec fn is_rs_codeword(ecc_len: nat, block: Seq<u8>) -> bool {
    &&& ecc_len <= block.len()
    &&& block.subrange(block.len() - ecc_len, block.len() as int) == rs_ecc(
        ecc_len,
        block.subrange(0, block.len() - ecc_len),
    )
}

/// Encodes `data` with `Encoder::new(ecc_len)` and returns the correction
/// bytes (`Buffer::ecc`). Trusted: the result is the named `rs_ecc` of the
/// arguments and has `ecc_len` bytes (the encoder sizes its output as data
/// length plus generator degree, and the generator for `ecc_len` has degree
/// `ecc_len`). The encoder works in fixed 256-entry polynomials, so longer
/// blocks, and a generator for 256 or more correction bytes (which has one
/// entry more), are excluded.
#[verifier::external_body]
fn rs_encode_ecc(ecc_len: usize, data: &[u8]) -> (ecc: Vec<u8>)
    requires
        data@.len() + ecc_len <= 256,
        ecc_len <= 255,
    ensures
        ecc@ == rs_ecc(ecc_len as nat, data@),
        ecc@.len() == ecc_len,
{
    Encoder::new(ecc_len).encode(data).ecc().to_vec()
}

/// Runs `Decoder::new(ecc_len).correct(msg, None)` and returns the whole
/// corrected block (`&buffer[..]`). Trusted: the answer is the named
/// `rs_correction` of the arguments; a corrected block is as long as `msg`
/// (the decoder adds an error polynomial of the message's length); and a
/// block that is an encoder codeword comes back unchanged (its syndromes
/// are all zero, and the decoder then returns the message as it is). The
/// decoder asserts blocks shorter than 256 bytes, so longer ones are
/// excluded. No erasure positions are handed over: with them, a block
/// carrying more errors than the code corrects can make the decoder divide
/// by zero in its field arithmetic, which a debug assertion refuses.
#[verifier::external_body]
fn rs_correct(ecc_len: usize, msg: &[u8]) -> (r: Result<Vec<u8>, DecoderError>)
    requires
        ecc_len <= msg@.len() < 256,
    ensures
        r is Ok ==> rs_correction(ecc_len as nat, msg@) == Some(r->Ok_0@),
        r is Ok ==> r->Ok_0@.len() == msg@.len(),
        r is Err ==> rs_correction(ecc_len as nat, msg@) is None,
        r is Err ==> !is_rs_codeword(ecc_len as nat, msg@),
        r is Ok ==> (is_rs_codeword(ecc_len as nat, msg@) ==> r->Ok_0@ == msg@),
{
    match Decoder::new(ecc_len).correct(msg, None) {
        Ok(buffer) => Ok(buffer.to_vec()),
        Err(e) => Err(e),
    }
}

/// Reed-Solomon error correction encoder.
pub struct ReedSolomonEncoder {
    ecc_len: usize,
}

/// Reed-Solomon error correction decoder.
pub struct ReedSolomonDecoder {
    ecc_len: usize,
}

/// Result of an error correction operation.
#[derive(Debug)]
pub struct ErrorCorrectionResult {
    /// The corrected data.
    pub data: Vec<u8>,
    /// Number of block bytes that the correction changed.
    pub errors_corrected: usize,
    /// Whether the correction was successful.
    pub success: bool,
}

/// Number of positions below `n` where `a` and `b` differ.
pub open spec fn count_diffs(a: Seq<u8>, b: Seq<u8>, n: nat) -> nat
    decreases n,
{
    if n == 0 {
        0
    } else {
        count_diffs(a, b, (n - 1) as nat) + if a[n - 1] != b[n - 1] {
            1nat
        } else {
            0nat
        }
    }
}

/// Outcome (data, errors corrected, success) of decoding `input` with
/// `ecc_len` correction bytes, given the decoder's answer `correction` for
/// it: too short a block fails with no data; a corrected block yields its
/// data part and the number of changed bytes; an unrecoverable block yields
/// its data part uncorrected and fails.
pub open spec fn decode_outcome(ecc_len: nat, input: Seq<u8>, correction: Option<Seq<u8>>) -> (Seq<u8>, nat, bool) {
    if input.len() < ecc_len {
        (Seq::empty(), 0, false)
    } else {
        let n = input.len() - ecc_len;
        match correction {
            Some(block) => (block.subrange(0, n), count_diffs(input, block, input.len()), true),
            None => (input.subrange(0, n), 0, false),
        }
    }
}

impl ErrorCorrectionResult {
    pub open spec fn outcome(&self) -> (Seq<u8>, nat, bool) {
        (self.data@, self.errors_corrected as nat, self.success)
    }
}

impl ReedSolomonEncoder {
    pub closed spec fn spec_ecc_len(&self) -> usize {
        self.ecc_len
    }

    /// Create an encoder that appends `ecc_len` correction bytes.
    pub fn new(ecc_len: usize) -> (e: Self)
        ensures
            e.spec_ecc_len() == ecc_len,
    {
        Self { ecc_len }
    }

    /// Encode data: the data followed by its correction bytes.
    pub fn encode(&self, data: &[u8]) -> (encoded: Vec<u8>)
        requires
            data@.len() + self.spec_ecc_len() <= 256,
            self.spec_ecc_len() <= 255,
        ensures
            encoded@ == data@ + rs_ecc(self.spec_ecc_len() as nat, data@),
            encoded@.len() == data@.len() + self.spec_ecc_len(),
            is_rs_codeword(self.spec_ecc_len() as nat, encoded@),
    {
        let ecc = rs_encode_ecc(self.ecc_len, data);
        let mut result: Vec<u8> = Vec::with_capacity(data.len() + self.ecc_len);
        append_bytes(&mut result, data);
        append_bytes(&mut result, ecc.as_slice());
        proof {
            let n = result@.len() - self.ecc_len;
            assert(result@.subrange(0, n) =~= data@);
            assert(result@.subrange(n, result@.len() as int) =~= ecc@);
        }
        result
    }

    /// The error correction code length.
    pub fn ecc_len(&self) -> (n: usize)
        ensures
            n == self.spec_ecc_len(),
    {
        self.ecc_len
    }

    /// Total size after encoding `data_len` bytes (data plus correction bytes).
    pub fn encoded_size(&self, data_len: usize) -> (n: usize)
        requires
            data_len + self.spec_ecc_len() <= usize::MAX,
        ensures
            n == data_len + self.spec_ecc_len(),
    {
        data_len + self.ecc_len
    }
}

impl ReedSolomonDecoder {
    pub closed spec fn spec_ecc_len(&self) -> usize {
        self.ecc_len
    }

    /// Create a decoder for blocks carrying `ecc_len` correction bytes.
    pub fn new(ecc_len: usize) -> (d: Self)
        ensures
            d.spec_ecc_len() == ecc_len,
    {
        Self { ecc_len }
    }

    /// The decoder's answer for a block, where a block too short to carry
    /// the correction bytes is never handed to it.
    pub open spec fn correction_for(&self, encoded: Seq<u8>) -> Option<Seq<u8>> {
        if encoded.len() < self.spec_ecc_len() {
            None
        } else {
            rs_correction(self.spec_ecc_len() as nat, encoded)
        }
    }

    /// Decode and correct a received block (data followed by correction
    /// bytes). Known error positions are accepted only as `None`: with
    /// erasures listed, the underlying decoder can fail an internal
    /// assertion on blocks it cannot correct, so none are handed to it.
    pub fn decode(&self, encoded_data: &[u8], known_erasures: Option<&[u8]>) -> (r: ErrorCorrectionResult)
        requires
            encoded_data@.len() < self.spec_ecc_len() || (encoded_data@.len() < 256
                && known_erasures is None),
        ensures
            r.outcome() == decode_outcome(
                self.spec_ecc_len() as nat,
                encoded_data@,
                self.correction_for(encoded_data@),
            ),
            is_rs_codeword(self.spec_ecc_len() as nat, encoded_data@) ==> (
            r.success && r.errors_corrected == 0 && r.data@ == encoded_data@.subrange(
                0,
                encoded_data@.len() - self.spec_ecc_len(),
            )),
            r.success ==> r.data@.len() == encoded_data@.len() - self.spec_ecc_len(),
    {
        if encoded_data.len() < self.ecc_len {
            return ErrorCorrectionResult { data: Vec::new(), errors_corrected: 0, success: false };
        }
        let data_len = encoded_data.len() - self.ecc_len;
        match rs_correct(self.ecc_len, encoded_data) {
            Ok(corrected) => {
                let data = vstd::slice::slice_to_vec(
                    vstd::slice::slice_subrange(corrected.as_slice(), 0, data_len),
                );
                let mut errors_corrected: usize = 0;
                let mut i: usize = 0;
                while i < encoded_data.len()
                    invariant
                        i <= encoded_data@.len(),
                        corrected@.len() == encoded_data@.len(),
                        errors_corrected == count_diffs(encoded_data@, corrected@, i as nat),
                        errors_corrected <= i,
                    decreases encoded_data.len() - i,
                {
                    if encoded_data[i] != corrected[i] {
                        errors_corrected += 1;
                    }
                    i += 1;
                }
                proof {
                    if is_rs_codeword(self.ecc_len as nat, encoded_data@) {
                        lemma_count_diffs_same(encoded_data@, encoded_data@.len() as nat);
                    }
                }
                ErrorCorrectionResult { data, errors_corrected, success: true }
            },
            Err(_) => {
                let data = vstd::slice::slice_to_vec(
                    vstd::slice::slice_subrange(encoded_data, 0, data_len),
                );
                ErrorCorrectionResult { data, errors_corrected: 0, success: false }
            },
        }
    }

    /// The error correction code length.
    pub fn ecc_len(&self) -> (n: usize)
        ensures
            n == self.spec_ecc_len(),
    {
        self.ecc_len
    }

    /// Length of the original data in a block of `encoded_len` bytes, or
    /// `None` when the block is shorter than the correction bytes.
    pub fn original_data_len(&self, encoded_len: usize) -> (n: Option<usize>)
        ensures
            encoded_len >= self.spec_ecc_len() ==> n == Some((encoded_len - self.spec_ecc_len()) as usize),
            encoded_len < self.spec_ecc_len() ==> n is None,
    {
        if encoded_len >= self.ecc_len {
            Some(encoded_len - self.ecc_len)
        } else {
            None
        }
    }
}

proof fn lemma_count_diffs_same(a: Seq<u8>, n: nat)
    ensures
        count_diffs(a, a, n) == 0,
    decreases n,
{
    if n > 0 {
        lemma_count_diffs_same(a, (n - 1) as nat);
    }
}

/// Correction length used by the default helpers.
pub const DEFAULT_ECC_LEN: usize = 16;

/// Encode data with the default correction length (16 bytes).
pub fn encode_default(data: &[u8]) -> (encoded: Vec<u8>)
    requires
        data@.len() + DEFAULT_ECC_LEN <= 256,
    ensures
        encoded@ == data@ + rs_ecc(DEFAULT_ECC_LEN as nat, data@),
        encoded@.len() == data@.len() + DEFAULT_ECC_LEN,
        is_rs_codeword(DEFAULT_ECC_LEN as nat, encoded@),
{
    let encoder = ReedSolomonEncoder::new(DEFAULT_ECC_LEN);
    encoder.encode(data)
}

/// Decode data with the default correction length (16 bytes).
pub fn decode_default(encoded_data: &[u8]) -> (r: ErrorCorrectionResult)
    requires
        encoded_data@.len() < 256,
    ensures
        r.outcome() == decode_outcome(
            DEFAULT_ECC_LEN as nat,
            encoded_data@,
            if encoded_data@.len() < DEFAULT_ECC_LEN {
                None
            } else {
                rs_correction(DEFAULT_ECC_LEN as nat, encoded_data@)
            },
        ),
        is_rs_codeword(DEFAULT_ECC_LEN as nat, encoded_data@) ==> (r.success && r.errors_corrected
            == 0 && r.data@ == encoded_data@.subrange(0, encoded_data@.len() - DEFAULT_ECC_LEN)),
        r.success ==> r.data@.len() == encoded_data@.len() - DEFAULT_ECC_LEN,
{
    let decoder = ReedSolomonDecoder::new(DEFAULT_ECC_LEN);
    decoder.decode(encoded_data, None)
}

/// `block` with its first `k` bytes incremented (wrapping).
pub open spec fn corrupt_prefix(block: Seq<u8>, k: nat) -> Seq<u8> {
    Seq::new(
        block.len(),
        |i: int|
            if i < k {
                ((block[i] + 1) % 256) as u8
            } else {
                block[i]
            },
    )
}

/// Encode `data`, corrupt the first `num_errors` bytes of the block when
/// that is at most half the correction length (otherwise leave it intact),
/// and decode the result.
pub fn test_correction(data: &[u8], ecc_len: usize, num_errors: usize) -> (r: ErrorCorrectionResult)
    requires
        data@.len() + ecc_len < 256,
    ensures
        ({
            let encoded = data@ + rs_ecc(ecc_len as nat, data@);
            let corrupted = if num_errors <= ecc_len / 2 {
                corrupt_prefix(encoded, num_errors as nat)
            } else {
                encoded
            };
            r.outcome() == decode_outcome(
                ecc_len as nat,
                corrupted,
                rs_correction(ecc_len as nat, corrupted),
            )
        }),
        num_errors == 0 || num_errors > ecc_len / 2 ==> r.success && r.errors_corrected == 0
            && r.data@ == data@,
{
    let encoder = ReedSolomonEncoder::new(ecc_len);
    let decoder = ReedSolomonDecoder::new(ecc_len);
    let encoded = encoder.encode(data);
    let mut corrupted = encoded.clone();
    let max_correctable = ecc_len / 2;
    if num_errors <= max_correctable {
        let mut i: usize = 0;
        while i < num_errors
            invariant
                i <= num_errors,
                num_errors <= max_correctable,
                max_correctable == ecc_len / 2,
                encoded@.len() == data@.len() + ecc_len,
                corrupted@.len() == encoded@.len(),
                forall|j: int|
                    0 <= j < corrupted@.len() ==> #[trigger] corrupted@[j] == if j < i {
                        ((encoded@[j] + 1) % 256) as u8
                    } else {
                        encoded@[j]
                    },
            decreases num_errors - i,
        {
            if i < corrupted.len() {
                let v = corrupted[i].wrapping_add(1);
                corrupted.set(i, v);
            }
            i += 1;
        }
        assert(corrupted@ =~= corrupt_prefix(encoded@, num_errors as nat));
        if num_errors == 0 {
            assert(corrupted@ =~= encoded@);
        }
    }
    proof {
        assert(encoded@.subrange(0, encoded@.len() - ecc_len) =~= data@);
    }
    decoder.decode(corrupted.as_slice(), None)
}

} // verus!
