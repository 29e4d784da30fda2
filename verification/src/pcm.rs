//! Raw PCM audio: the integer samples held in a headerless little-endian
//! byte stream of a given bit depth, the full-scale value that normalises
//! them, and the play position of a looping or one-shot player that fills
//! one audio buffer at a time.

use vstd::prelude::*;

verus! {

/// Why raw PCM bytes could not be read.
#[derive(Debug, Clone, Copy, PartialEq, Eq, Structural)]
pub enum PcmError {
    /// Only 8, 16, 24 and 32 bits per sample are read.
    UnsupportedBitDepth(u16),
}

/// Bytes per sample at `bit_depth`; zero for a depth that is not read.
pub open spec fn sample_width(bit_depth: u16) -> int {
    if bit_depth == 8 {
        1
    } else if bit_depth == 16 {
        2
    } else if bit_depth == 24 {
        3
    } else if bit_depth == 32 {
        4
    } else {
        0
    }
}

/// The bit depths that are read: 8, 16, 24 and 32.
pub open spec fn supported_bit_depth(bit_depth: u16) -> bool {
    sample_width(bit_depth) > 0
}

/// The unsigned little-endian value of the `width` bytes at `start`
/// (`width` from 1 to 4).
pub open spec fn le_unsigned(data: Seq<u8>, start: int, width: int) -> int {
    if width == 1 {
        data[start] as int
    } else if width == 2 {
        data[start] + 256 * data[start + 1]
    } else if width == 3 {
        data[start] + 256 * data[start + 1] + 0x1_0000 * data[start + 2]
    } else {
        data[start] + 256 * data[start + 1] + 0x1_0000 * data[start + 2] + 0x100_0000
            * data[start + 3]
    }
}

/// Sample `i` of a stream at `bit_depth`: 8, 16 and 32-bit samples are
/// two's-complement; a 24-bit sample is read into the low three bytes of a
/// 32-bit integer whose top byte is zero, so it is never negative.
pub open spec fn pcm_sample(data: Seq<u8>, bit_depth: u16, i: int) -> int {
    let w = sample_width(bit_depth);
    let u = le_unsigned(data, i * w, w);
    if bit_depth == 8 {
        if u >= 0x80 { u - 0x100 } else { u }
    } else if bit_depth == 16 {
        if u >= 0x8000 { u - 0x1_0000 } else { u }
    } else if bit_depth == 32 {
        if u >= 0x8000_0000 { u - 0x1_0000_0000 } else { u }
    } else {
        u
    }
}

/// The samples of a headerless little-endian PCM stream, one per
/// `bit_depth / 8` bytes in order; trailing bytes that do not make a whole
/// sample are dropped. A bit depth other than 8, 16, 24 or 32 is refused.
pub fn decode_pcm_samples(data: &[u8], bit_depth: u16) -> (r: Result<Vec<i32>, PcmError>)
    ensures
        match r {
            Ok(samples) => {
                &&& supported_bit_depth(bit_depth)
                &&& samples@.len() == (data@.len() as int) / sample_width(bit_depth)
                &&& forall|i: int|
                    0 <= i < samples@.len() ==> samples@[i] as int == #[trigger] pcm_sample(
                        data@,
                        bit_depth,
                        i,
                    )
            },
            Err(e) => !supported_bit_depth(bit_depth) && e == PcmError::UnsupportedBitDepth(
                bit_depth,
            ),
        },
{
    let width: usize = if bit_depth == 8 {
        1
    } else if bit_depth == 16 {
        2
    } else if bit_depth == 24 {
        3
    } else if bit_depth == 32 {
        4
    } else {
        return Err(PcmError::UnsupportedBitDepth(bit_depth));
    };
    let count: usize = data.len() / width;
    let mut samples: Vec<i32> = Vec::new();
    let mut i: usize = 0;
    let mut start: usize = 0;
    while i < count
        invariant
            width as int == sample_width(bit_depth),
            1 <= width <= 4,
            count as int == (data@.len() as int) / (width as int),
            i <= count,
            start as int == i * width,
            samples@.len() == i,
            forall|k: int| 0 <= k < i ==> samples@[k] as int == #[trigger] pcm_sample(data@, bit_depth, k),
        decreases count - i,
    {
        assert(start + width <= data@.len()) by (nonlinear_arith)
            requires
                start as int == i * width,
                i < count,
                count as int == (data@.len() as int) / (width as int),
                1 <= width,
        {
            assert((i + 1) * width <= count * width);
            assert(count * width <= data@.len());
        }
        let b0: i64 = data[start] as i64;
        let value: i64 = if width == 1 {
            if b0 >= 0x80 { b0 - 0x100 } else { b0 }
        } else if width == 2 {
            let u: i64 = b0 + 256 * (data[start + 1] as i64);
            if u >= 0x8000 { u - 0x1_0000 } else { u }
        } else if width == 3 {
            b0 + 256 * (data[start + 1] as i64) + 0x1_0000 * (data[start + 2] as i64)
        } else {
            let u: i64 = b0 + 256 * (data[start + 1] as i64) + 0x1_0000 * (data[start + 2] as i64)
                + 0x100_0000 * (data[start + 3] as i64);
            if u >= 0x8000_0000 { u - 0x1_0000_0000 } else { u }
        };
        assert(value == pcm_sample(data@, bit_depth, i as int));
        assert((i + 1) * width == i * width + width) by (nonlinear_arith);
        samples.push(value as i32);
        i = i + 1;
        start = start + width;
    }
    Ok(samples)
}

/// The magnitude that a sample at `bit_depth` is divided by to bring it to
/// the range of one: 2^7, 2^15, 2^23 or 2^31.
pub fn full_scale(bit_depth: u16) -> (r: u32)
    requires
        supported_bit_depth(bit_depth),
    ensures
        r as int == (if bit_depth == 8 {
            0x80int
        } else if bit_depth == 16 {
            0x8000int
        } else if bit_depth == 24 {
            0x80_0000int
        } else {
            0x8000_0000int
        }),
{
    if bit_depth == 8 {
        0x80
    } else if bit_depth == 16 {
        0x8000
    } else if bit_depth == 24 {
        0x80_0000
    } else {
        0x8000_0000
    }
}

/// Where a player at `position` in `len` samples plays from next: the
/// start again once the end has been reached.
pub open spec fn resume_position(position: int, len: int) -> int {
    if position >= len {
        0
    } else {
        position
    }
}

/// The indices of the samples that fill the first slots of a buffer of
/// `frames` slots, played from `position` in `len` samples. A looping
/// player fills every slot, wrapping to the start (none when there are no
/// samples); a one-shot player stops at the end.
pub open spec fn planned_sources(position: int, len: int, frames: int, looping: bool) -> Seq<int> {
    let p0 = resume_position(position, len);
    if looping {
        if len > 0 {
            Seq::new(frames as nat, |i: int| (p0 + i) % len)
        } else {
            Seq::empty()
        }
    } else if position >= len {
        Seq::empty()
    } else {
        Seq::new(
            (if frames <= len - position {
                frames
            } else {
                len - position
            }) as nat,
            |i: int| position + i,
        )
    }
}

/// The play position after a buffer of `frames` slots: one past the last
/// sample played; a looping player that wraps moves back to the start only
/// when a further sample is needed.
pub open spec fn planned_position(position: int, len: int, frames: int, looping: bool) -> int {
    let p0 = resume_position(position, len);
    if looping {
        if len > 0 && frames > 0 {
            (p0 + frames - 1) % len + 1
        } else {
            p0
        }
    } else if position >= len {
        position
    } else if frames <= len - position {
        position + frames
    } else {
        len
    }
}

/// Whether a playing player is still playing after the buffer: a one-shot
/// player stops when it is asked for a buffer at the end of its samples.
pub open spec fn keeps_playing(position: int, len: int, looping: bool) -> bool {
    looping || position < len
}

/// What one audio buffer holds and where the player stands after it.
pub struct PlaybackStep {
    /// The index of the sample played in each of the first slots of the
    /// buffer, in order; the slots after them stay silent.
    pub sources: Vec<usize>,
    /// The play position after the buffer.
    pub position: usize,
    /// Whether playback goes on.
    pub playing: bool,
}

/// `a % m` steps by one when `a` does, wrapping to zero at `m`.
proof fn lemma_mod_successor(a: int, m: int)
    requires
        a >= 0,
        m > 0,
    ensures
        a % m + 1 < m ==> (a + 1) % m == a % m + 1,
        a % m + 1 == m ==> (a + 1) % m == 0,
{
    vstd::arithmetic::div_mod::lemma_fundamental_div_mod(a, m);
    let q = a / m;
    let r = a % m;
    assert(a == q * m + r) by (nonlinear_arith)
        requires
            a == m * q + r,
    ;
    if r + 1 < m {
        vstd::arithmetic::div_mod::lemma_fundamental_div_mod_converse(a + 1, m, q, r + 1);
    } else if r + 1 == m {
        assert(a + 1 == (q + 1) * m + 0) by (nonlinear_arith)
            requires
                a == q * m + r,
                r + 1 == m,
        ;
        vstd::arithmetic::div_mod::lemma_fundamental_div_mod_converse(a + 1, m, q + 1, 0);
    }
}

/// Fills one buffer of `frames` slots from a player at `position` in `len`
/// samples. A player that is not playing plays nothing; a one-shot player
/// at the end stops; otherwise the buffer takes the planned samples and the
/// position moves on.
pub fn playback_step(position: usize, len: usize, frames: usize, looping: bool, playing: bool) -> (step: PlaybackStep)
    ensures
        !playing || !keeps_playing(position as int, len as int, looping) ==> {
            &&& step.sources@.len() == 0
            &&& step.position == position
            &&& !step.playing
        },
        playing && keeps_playing(position as int, len as int, looping) ==> {
            let planned = planned_sources(position as int, len as int, frames as int, looping);
            &&& step.playing
            &&& step.sources@.len() == planned.len()
            &&& forall|i: int| 0 <= i < planned.len() ==> step.sources@[i] as int == planned[i]
            &&& step.position as int == planned_position(
                position as int,
                len as int,
                frames as int,
                looping,
            )
        },
{
    let mut sources: Vec<usize> = Vec::new();
    if !playing {
        return PlaybackStep { sources, position, playing: false };
    }
    let mut pos: usize = position;
    if pos >= len {
        if looping {
            pos = 0;
        } else {
            return PlaybackStep { sources, position, playing: false };
        }
    }
    let ghost p0: int = resume_position(position as int, len as int);
    let mut slot: usize = 0;
    while slot < frames && (pos < len || looping)
        invariant
            p0 == resume_position(position as int, len as int),
            0 <= p0 < len || (looping && len == 0 && p0 == 0),
            slot <= frames,
            looping && len > 0 ==> {
                &&& sources@.len() == slot
                &&& (slot == 0 ==> pos == p0)
                &&& (slot > 0 ==> pos as int == (p0 + slot - 1) % (len as int) + 1)
                &&& forall|k: int| 0 <= k < slot ==> sources@[k] as int == (p0 + k) % (len as int)
            },
            looping && len == 0 ==> sources@.len() == 0 && pos == 0,
            !looping ==> {
                &&& p0 == position
                &&& pos as int == p0 + slot
                &&& pos <= len
                &&& sources@.len() == slot
                &&& forall|k: int| 0 <= k < slot ==> sources@[k] as int == p0 + k
            },
        decreases frames - slot,
    {
        proof {
            if looping && len > 0 && slot > 0 {
                lemma_mod_successor(p0 + slot - 1, len as int);
            }
            if looping && len > 0 && slot == 0 {
                vstd::arithmetic::div_mod::lemma_small_mod(p0 as nat, len as nat);
            }
        }
        if pos < len {
            sources.push(pos);
            pos = pos + 1;
        } else {
            pos = 0;
            if pos < len {
                sources.push(pos);
                pos = pos + 1;
            }
        }
        slot = slot + 1;
    }
    let ghost planned = planned_sources(position as int, len as int, frames as int, looping);
    assert(sources@.len() == planned.len());
    PlaybackStep { sources, position: pos, playing: true }
}

/// Playback is seamless across buffers: two buffers of `f1` and `f2` slots,
/// the second played from where the first left off, hold the samples of
/// one buffer of `f1 + f2` slots.
pub proof fn lemma_playback_seamless(position: int, len: int, f1: int, f2: int, looping: bool)
    requires
        0 <= position,
        0 <= len,
        0 <= f1,
        0 <= f2,
    ensures
        planned_sources(position, len, f1, looping) + planned_sources(
            planned_position(position, len, f1, looping),
            len,
            f2,
            looping,
        ) =~= planned_sources(position, len, f1 + f2, looping),
{
    let p0 = resume_position(position, len);
    let first = planned_sources(position, len, f1, looping);
    let q = planned_position(position, len, f1, looping);
    let second = planned_sources(q, len, f2, looping);
    let whole = planned_sources(position, len, f1 + f2, looping);
    if looping && len > 0 {
        if f1 > 0 {
            lemma_mod_successor(p0 + f1 - 1, len);
            assert(resume_position(q, len) == (p0 + f1) % len);
        } else {
            vstd::arithmetic::div_mod::lemma_small_mod(p0 as nat, len as nat);
        }
        assert forall|j: int| 0 <= j < f1 + f2 implies (first + second)[j] == #[trigger] whole[j] by {
            if j >= f1 {
                let i = j - f1;
                vstd::arithmetic::div_mod::lemma_add_mod_noop(p0 + f1, i, len);
                vstd::arithmetic::div_mod::lemma_mod_twice(p0 + f1, len);
                vstd::arithmetic::div_mod::lemma_add_mod_noop((p0 + f1) % len, i, len);
            }
        }
    }
}

} // verus!
