//! Waves and tokens as the training side decodes and pads them.
use crate::wire::{
    get_i16_le, get_i64_le, i16_le, i16_of_le, i16s_le, i64_le, i64_of_le, i64s_le,
    law_bytes_are_read_by_weight, lemma_i16_round_trip, lemma_i64_round_trip,
};
use vstd::prelude::*;

verus! {

/// Silence at either end of a wave, in samples.
pub const EDGE_PAD_SAMPLES: usize = 5_000;

/// The shortest padded wave, in samples.
pub const MIN_WAVE_SAMPLES: usize = 24_600;

/// The 16-bit samples in some bytes.
pub open spec fn i16s_of(bytes: Seq<u8>) -> Seq<i16> {
    Seq::new((bytes.len() / 2) as nat, |i: int| i16_of_le(bytes.subrange(2 * i, 2 * i + 2)) as i16)
}

/// The 64-bit tokens in some bytes.
pub open spec fn i64s_of(bytes: Seq<u8>) -> Seq<i64> {
    Seq::new((bytes.len() / 8) as nat, |i: int| i64_of_le(bytes.subrange(8 * i, 8 * i + 8)) as i64)
}

/// A wave with the silence around it.
pub struct PaddedWave {
    pub samples: Vec<i16>,
    pub left: usize,
    pub right: usize,
}

/// How many samples of silence are missing beyond the edges.
pub open spec fn missing_samples(count: nat) -> nat {
    if count + 2 * EDGE_PAD_SAMPLES >= MIN_WAVE_SAMPLES {
        0
    } else {
        (MIN_WAVE_SAMPLES - count - 2 * EDGE_PAD_SAMPLES) as nat
    }
}

/// The silence in front of a wave.
pub open spec fn left_pad(count: nat) -> nat {
    EDGE_PAD_SAMPLES as nat + missing_samples(count) / 2
}

/// The silence behind a wave.
pub open spec fn right_pad(count: nat) -> nat {
    (EDGE_PAD_SAMPLES + missing_samples(count) - missing_samples(count) / 2) as nat
}

/// Reads a wave of 16-bit samples and says how much silence goes around it.
pub fn decode_wave(bytes: &[u8]) -> (wave: Result<PaddedWave, String>)
    ensures
        match wave {
            Ok(wave) => {
                &&& bytes@.len() % 2 == 0
                &&& wave.samples@ == i16s_of(bytes@)
                &&& wave.left == left_pad(wave.samples@.len())
                &&& wave.right == right_pad(wave.samples@.len())
            },
            Err(message) => bytes@.len() % 2 != 0 && message@
                == "wave byte count is not divisible by two"@,
        },
{
    if bytes.len() % 2 != 0 {
        return Err("wave byte count is not divisible by two".to_owned());
    }
    let count: usize = bytes.len() / 2;
    let mut samples: Vec<i16> = Vec::new();
    let mut i: usize = 0;
    while i < count
        invariant
            2 * count == bytes.len(),
            i <= count,
            samples@.len() == i,
            forall|k: int| 0 <= k < i ==> #[trigger] samples@[k] == i16s_of(bytes@)[k],
        decreases count - i,
    {
        samples.push(get_i16_le(bytes, 2 * i));
        i = i + 1;
    }
    assert(samples@ =~= i16s_of(bytes@));
    let padded: usize = count + 2 * EDGE_PAD_SAMPLES;
    let missing: usize = MIN_WAVE_SAMPLES.saturating_sub(padded);
    Ok(
        PaddedWave {
            samples,
            left: EDGE_PAD_SAMPLES + missing / 2,
            right: EDGE_PAD_SAMPLES + missing - missing / 2,
        },
    )
}

/// Reads 64-bit tokens.
pub fn decode_text(bytes: &[u8]) -> (tokens: Result<Vec<i64>, String>)
    ensures
        match tokens {
            Ok(tokens) => bytes@.len() % 8 == 0 && tokens@ == i64s_of(bytes@),
            Err(message) => bytes@.len() % 8 != 0 && message@
                == "text byte count is not divisible by eight"@,
        },
{
    if bytes.len() % 8 != 0 {
        return Err("text byte count is not divisible by eight".to_owned());
    }
    let count: usize = bytes.len() / 8;
    let mut tokens: Vec<i64> = Vec::new();
    let mut i: usize = 0;
    while i < count
        invariant
            8 * count == bytes.len(),
            i <= count,
            tokens@.len() == i,
            forall|k: int| 0 <= k < i ==> #[trigger] tokens@[k] == i64s_of(bytes@)[k],
        decreases count - i,
    {
        tokens.push(get_i64_le(bytes, 8 * i));
        i = i + 1;
    }
    assert(tokens@ =~= i64s_of(bytes@));
    Ok(tokens)
}

/// How many spectrogram frames are kept: an even number.
pub fn kept_frames(frames: i64) -> (kept: i64)
    requires
        frames >= 0,
    ensures
        kept == frames - frames % 2,
{
    frames - frames % 2
}

/// A padded wave is never shorter than the least length, keeps its edges, and
/// puts at most one sample more behind than in front.
pub proof fn law_padding(count: nat)
    ensures
        left_pad(count) + count + right_pad(count) == if count + 2 * EDGE_PAD_SAMPLES
            >= MIN_WAVE_SAMPLES {
            (count + 2 * EDGE_PAD_SAMPLES) as int
        } else {
            MIN_WAVE_SAMPLES as int
        },
        left_pad(count) >= EDGE_PAD_SAMPLES,
        left_pad(count) <= right_pad(count) <= left_pad(count) + 1,
        left_pad(count) >= 5_000,
        count >= 14_600 ==> left_pad(count) == 5_000 && right_pad(count) == 5_000,
        count < 14_600 ==> left_pad(count) + count + right_pad(count) == 24_600,
{
}

/// A wave reads back from the bytes it was served as.
pub proof fn law_wave_reads_back(samples: Seq<i16>)
    ensures
        i16s_le(samples).len() == 2 * samples.len(),
        i16s_of(i16s_le(samples)) == samples,
    decreases samples.len(),
{
    let bytes = i16s_le(samples);
    if samples.len() > 0 {
        let shorter = samples.drop_last();
        let begun = i16s_le(shorter);
        law_wave_reads_back(shorter);
        lemma_i16_round_trip(samples.last());
        assert forall|i: int| 0 <= i < samples.len() implies #[trigger] i16s_of(bytes)[i]
            == samples[i] by {
            if i < shorter.len() {
                assert(bytes.subrange(2 * i, 2 * i + 2) =~= begun.subrange(2 * i, 2 * i + 2));
                assert(i16s_of(begun)[i] == shorter[i]);
            } else {
                assert(bytes.subrange(2 * i, 2 * i + 2) =~= i16_le(samples.last()));
            }
        }
    }
    assert(i16s_of(bytes) =~= samples);
}

/// Tokens read back from the bytes they were served as.
pub proof fn law_tokens_read_back(tokens: Seq<i64>)
    ensures
        i64s_le(tokens).len() == 8 * tokens.len(),
        i64s_of(i64s_le(tokens)) == tokens,
    decreases tokens.len(),
{
    let bytes = i64s_le(tokens);
    if tokens.len() > 0 {
        let shorter = tokens.drop_last();
        let begun = i64s_le(shorter);
        law_tokens_read_back(shorter);
        lemma_i64_round_trip(tokens.last());
        assert forall|i: int| 0 <= i < tokens.len() implies #[trigger] i64s_of(bytes)[i]
            == tokens[i] by {
            if i < shorter.len() {
                assert(bytes.subrange(8 * i, 8 * i + 8) =~= begun.subrange(8 * i, 8 * i + 8));
                assert(i64s_of(begun)[i] == shorter[i]);
            } else {
                assert(bytes.subrange(8 * i, 8 * i + 8) =~= i64_le(tokens.last()));
            }
        }
    }
    assert(i64s_of(bytes) =~= tokens);
}

/// Sample `i` of a wave is made of its bytes `2 * i` and `2 * i + 1`, the least
/// significant first, as a signed number; there is one for every two bytes.
pub proof fn law_sample_is_its_two_bytes(bytes: Seq<u8>, i: int)
    requires
        0 <= i < bytes.len() / 2,
    ensures
        i16s_of(bytes).len() == bytes.len() / 2,
        i16s_of(bytes)[i] == ({
            let bits = bytes[2 * i] + 0x100 * bytes[2 * i + 1];
            if bits < 0x8000 {
                bits
            } else {
                bits - 0x1_0000
            }
        }),
{
    law_bytes_are_read_by_weight(bytes.subrange(2 * i, 2 * i + 2));
}

/// Token `i` of a text is made of its bytes from `8 * i` on, the least
/// significant first, as a signed number; there is one for every eight bytes.
pub proof fn law_token_is_its_eight_bytes(bytes: Seq<u8>, i: int)
    requires
        0 <= i < bytes.len() / 8,
    ensures
        i64s_of(bytes).len() == bytes.len() / 8,
        i64s_of(bytes)[i] == ({
            let at = 8 * i;
            let bits = bytes[at] + 0x100 * bytes[at + 1] + 0x1_0000 * bytes[at + 2] + 0x100_0000
                * bytes[at + 3] + 0x1_0000_0000 * bytes[at + 4] + 0x100_0000_0000 * bytes[at + 5]
                + 0x1_0000_0000_0000 * bytes[at + 6] + 0x100_0000_0000_0000 * bytes[at + 7];
            if bits < 0x8000_0000_0000_0000 {
                bits
            } else {
                bits - 0x1_0000_0000_0000_0000
            }
        }),
{
    law_bytes_are_read_by_weight(bytes.subrange(8 * i, 8 * i + 8));
}

} // verus!
