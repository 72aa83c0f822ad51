//! Stored audio: which samples are taken and what becomes of them.
use crate::wire::{i16s_le, put_i16_le};
use vstd::prelude::*;

verus! {

/// The sample rate at which audio is served.
pub const TARGET_SAMPLE_RATE: u32 = 24_000;

/// What the header of a wave file says.
#[derive(Clone, Copy, Debug, PartialEq, Eq, Structural)]
pub struct WaveFormat {
    pub channels: u16,
    pub sample_rate: u32,
    pub bits_per_sample: u16,
    pub is_float: bool,
}

/// Why audio is refused.
#[derive(Debug)]
pub enum AudioError {
    /// The file is no wave file, or it ends too early.
    Wave(String),
    /// The file holds samples that are not served.
    Unsupported(WaveFormat),
}

/// The samples of the first channel.
pub enum Decoded {
    /// Samples that are served as they are.
    Pcm(Vec<i16>),
    /// Whole numbers to be scaled by their width, and resampled where the rate
    /// is not the one that is served.
    Ints { samples: Vec<i32>, bits_per_sample: u16, sample_rate: u32, resample: bool },
    /// The file holds 32-bit floats: every `channels`-th is taken, to be
    /// resampled where the rate is not the one that is served.
    Floats { channels: u16, sample_rate: u32, resample: bool },
}

/// A wave file of which the header has been read.
#[verifier::external_type_specification]
#[verifier::external_body]
#[verifier::reject_recursive_types(R)]
pub struct ExWavReader<R>(hound::WavReader<R>);

/// What a wave file holds: its format, and its samples read as 16-bit numbers
/// and as 32-bit numbers, each a value or a message.
pub struct WaveModel {
    pub format: WaveFormat,
    pub i16s: Seq<Result<i16, Seq<char>>>,
    pub i32s: Seq<Result<i32, Seq<char>>>,
}

/// What `hound` finds in some bytes: a wave file, or a message.
pub uninterp spec fn wave_of(bytes: Seq<u8>) -> Result<WaveModel, Seq<char>>;

/// What a reader has still to give.
pub uninterp spec fn wave_left(reader: hound::WavReader<&[u8]>) -> WaveModel;

/// A result with the text of its error.
pub open spec fn with_text<T>(result: Result<T, String>) -> Result<T, Seq<char>> {
    match result {
        Ok(value) => Ok(value),
        Err(message) => Err(message@),
    }
}

/// `hound::WavReader::new`: reads the header. A file without channels is
/// refused.
#[verifier::external_body]
fn open_wave(bytes: &[u8]) -> (reader: Result<hound::WavReader<&[u8]>, String>)
    ensures
        match reader {
            Ok(reader) => wave_of(bytes@) == Ok::<WaveModel, Seq<char>>(wave_left(reader))
                && wave_left(reader).format.channels > 0,
            Err(message) => wave_of(bytes@) == Err::<WaveModel, Seq<char>>(message@),
        },
{
    hound::WavReader::new(bytes).map_err(|error| error.to_string())
}

/// `hound::WavReader::spec`: the format in the header.
#[verifier::external_body]
fn wave_format(reader: &hound::WavReader<&[u8]>) -> (format: WaveFormat)
    ensures
        format == wave_left(*reader).format,
{
    let spec = reader.spec();
    WaveFormat {
        channels: spec.channels,
        sample_rate: spec.sample_rate,
        bits_per_sample: spec.bits_per_sample,
        is_float: spec.sample_format == hound::SampleFormat::Float,
    }
}

/// `hound::WavReader::samples` read as `i16`, one step: it goes on where the
/// last step stopped.
#[verifier::external_body]
fn next_i16(reader: &mut hound::WavReader<&[u8]>) -> (item: Option<Result<i16, String>>)
    ensures
        match item {
            Some(result) => {
                &&& wave_left(*old(reader)).i16s.len() > 0
                &&& with_text(result) == wave_left(*old(reader)).i16s[0]
                &&& wave_left(*final(reader)).i16s == wave_left(*old(reader)).i16s.drop_first()
            },
            None => wave_left(*old(reader)).i16s.len() == 0,
        },
{
    reader.samples::<i16>().next().map(|item| item.map_err(|error| error.to_string()))
}

/// `hound::WavReader::samples` read as `i32`, one step: it goes on where the
/// last step stopped.
#[verifier::external_body]
fn next_i32(reader: &mut hound::WavReader<&[u8]>) -> (item: Option<Result<i32, String>>)
    ensures
        match item {
            Some(result) => {
                &&& wave_left(*old(reader)).i32s.len() > 0
                &&& with_text(result) == wave_left(*old(reader)).i32s[0]
                &&& wave_left(*final(reader)).i32s == wave_left(*old(reader)).i32s.drop_first()
            },
            None => wave_left(*old(reader)).i32s.len() == 0,
        },
{
    reader.samples::<i32>().next().map(|item| item.map_err(|error| error.to_string()))
}

/// Every `stride`-th item, beginning with the first, up to the first error.
pub open spec fn strided<T>(items: Seq<Result<T, Seq<char>>>, stride: int, skip: int) -> Result<
    Seq<T>,
    Seq<char>,
>
    decreases items.len(),
{
    if items.len() == 0 {
        Ok(Seq::empty())
    } else if skip > 0 {
        strided(items.drop_first(), stride, skip - 1)
    } else {
        match items[0] {
            Err(message) => Err(message),
            Ok(value) => match strided(items.drop_first(), stride, stride - 1) {
                Ok(values) => Ok(seq![value] + values),
                Err(message) => Err(message),
            },
        }
    }
}

/// What becomes of a wave file.
pub open spec fn decodes(wave: Result<WaveModel, Seq<char>>, target: u32, result: Result<Decoded, AudioError>) -> bool {
    match wave {
        Err(message) => result matches Err(AudioError::Wave(text)) && text@ == message,
        Ok(model) => {
            let format = model.format;
            let stride = format.channels as int;
            if !format.is_float && format.bits_per_sample == 16 && format.sample_rate == target {
                match strided(model.i16s, stride, 0) {
                    Ok(values) => result matches Ok(Decoded::Pcm(samples)) && samples@ == values,
                    Err(message) => result matches Err(AudioError::Wave(text)) && text@ == message,
                }
            } else if !format.is_float {
                match strided(model.i32s, stride, 0) {
                    Ok(values) => {
                        &&& result matches Ok(
                            Decoded::Ints { samples, bits_per_sample, sample_rate, resample },
                        )
                        &&& samples@ == values
                        &&& bits_per_sample == format.bits_per_sample
                        &&& sample_rate == format.sample_rate
                        &&& resample == (format.sample_rate != target)
                    },
                    Err(message) => result matches Err(AudioError::Wave(text)) && text@ == message,
                }
            } else if format.bits_per_sample == 32 {
                &&& result matches Ok(Decoded::Floats { channels, sample_rate, resample })
                &&& channels == format.channels
                &&& sample_rate == format.sample_rate
                &&& resample == (format.sample_rate != target)
            } else {
                result matches Err(AudioError::Unsupported(unsupported)) && unsupported == format
            }
        },
    }
}

fn take_i16(reader: &mut hound::WavReader<&[u8]>, channels: u16) -> (samples: Result<Vec<i16>, String>)
    requires
        channels > 0,
    ensures
        match strided(wave_left(*old(reader)).i16s, channels as int, 0) {
            Ok(values) => samples matches Ok(list) && list@ == values,
            Err(message) => samples matches Err(text) && text@ == message,
        },
{
    let ghost all = wave_left(*reader).i16s;
    let mut samples: Vec<i16> = Vec::new();
    let mut skip: u16 = 0;
    let ghost mut taken: int = 0;
    assert(all.skip(0) =~= all);
    proof {
        lemma_prepend_nothing(strided(all, channels as int, 0));
    }
    loop
        invariant
            channels > 0,
            skip < channels,
            0 <= taken <= all.len(),
            wave_left(*reader).i16s == all.skip(taken),
            prepended(samples@, strided(all.skip(taken), channels as int, skip as int)) == strided(
                all,
                channels as int,
                0,
            ),
            all == wave_left(*old(reader)).i16s,
        decreases all.len() - taken,
    {
        match next_i16(reader) {
            None => {
                assert(samples@ + Seq::<i16>::empty() =~= samples@);
                return Ok(samples);
            },
            Some(item) => {
                proof {
                    assert(all.skip(taken).drop_first() =~= all.skip(taken + 1));
                    taken = taken + 1;
                }
                if skip > 0 {
                    skip = skip - 1;
                } else {
                    match item {
                        Err(message) => return Err(message),
                        Ok(value) => {
                            proof {
                                lemma_prepended_push(
                                    samples@,
                                    value,
                                    strided(all.skip(taken), channels as int, channels - 1),
                                );
                            }
                            samples.push(value);
                            skip = channels - 1;
                        },
                    }
                }
            },
        }
    }
}

fn take_i32(reader: &mut hound::WavReader<&[u8]>, channels: u16) -> (samples: Result<Vec<i32>, String>)
    requires
        channels > 0,
    ensures
        match strided(wave_left(*old(reader)).i32s, channels as int, 0) {
            Ok(values) => samples matches Ok(list) && list@ == values,
            Err(message) => samples matches Err(text) && text@ == message,
        },
{
    let ghost all = wave_left(*reader).i32s;
    let mut samples: Vec<i32> = Vec::new();
    let mut skip: u16 = 0;
    let ghost mut taken: int = 0;
    assert(all.skip(0) =~= all);
    proof {
        lemma_prepend_nothing(strided(all, channels as int, 0));
    }
    loop
        invariant
            channels > 0,
            skip < channels,
            0 <= taken <= all.len(),
            wave_left(*reader).i32s == all.skip(taken),
            prepended(samples@, strided(all.skip(taken), channels as int, skip as int)) == strided(
                all,
                channels as int,
                0,
            ),
            all == wave_left(*old(reader)).i32s,
        decreases all.len() - taken,
    {
        match next_i32(reader) {
            None => {
                assert(samples@ + Seq::<i32>::empty() =~= samples@);
                return Ok(samples);
            },
            Some(item) => {
                proof {
                    assert(all.skip(taken).drop_first() =~= all.skip(taken + 1));
                    taken = taken + 1;
                }
                if skip > 0 {
                    skip = skip - 1;
                } else {
                    match item {
                        Err(message) => return Err(message),
                        Ok(value) => {
                            proof {
                                lemma_prepended_push(
                                    samples@,
                                    value,
                                    strided(all.skip(taken), channels as int, channels - 1),
                                );
                            }
                            samples.push(value);
                            skip = channels - 1;
                        },
                    }
                }
            },
        }
    }
}

/// Values put in front of those of a good result.
spec fn prepended<T>(front: Seq<T>, result: Result<Seq<T>, Seq<char>>) -> Result<Seq<T>, Seq<char>> {
    match result {
        Ok(values) => Ok(front + values),
        Err(message) => Err(message),
    }
}

proof fn lemma_prepend_nothing<T>(result: Result<Seq<T>, Seq<char>>)
    ensures
        prepended(Seq::<T>::empty(), result) == result,
{
    if let Ok(values) = result {
        assert(Seq::<T>::empty() + values =~= values);
    }
}

proof fn lemma_prepended_push<T>(front: Seq<T>, value: T, rest: Result<Seq<T>, Seq<char>>)
    ensures
        prepended(front.push(value), rest) == prepended(front, prepended(seq![value], rest)),
{
    if let Ok(values) = rest {
        assert(front.push(value) + values =~= front + (seq![value] + values));
    }
}

/// Takes the first channel out of stored audio. Samples of 16 bits at the
/// rate that is served are taken as they are; other whole numbers are left to
/// be scaled, and 32-bit floats to be read.
pub fn decode_audio(raw_wav: &[u8], target_sample_rate: u32) -> (decoded: Result<Decoded, AudioError>)
    ensures
        decodes(wave_of(raw_wav@), target_sample_rate, decoded),
        wave_of(raw_wav@) matches Err(message) ==> (decoded matches Err(AudioError::Wave(text)) && text@
            == message),
        wave_of(raw_wav@) matches Ok(wave) ==> {
            &&& decoded matches Ok(Decoded::Pcm(_)) ==> !wave.format.is_float
                && wave.format.bits_per_sample == 16 && wave.format.sample_rate == target_sample_rate
            &&& decoded is Ok && wave.format.sample_rate != target_sample_rate ==> (
            decoded->Ok_0 matches Decoded::Ints { sample_rate, resample, .. } && resample && sample_rate
                == wave.format.sample_rate) || (
            decoded->Ok_0 matches Decoded::Floats { sample_rate, resample, .. } && resample && sample_rate
                == wave.format.sample_rate)
        },
{
    let mut reader = match open_wave(raw_wav) {
        Ok(reader) => reader,
        Err(message) => return Err(AudioError::Wave(message)),
    };
    decode_wave_file(&mut reader, target_sample_rate)
}

/// Takes the first channel out of an opened wave file.
pub fn decode_wave_file(
    reader: &mut hound::WavReader<&[u8]>,
    target_sample_rate: u32,
) -> (decoded: Result<Decoded, AudioError>)
    requires
        wave_left(*old(reader)).format.channels > 0,
    ensures
        decodes(
            Ok::<WaveModel, Seq<char>>(wave_left(*old(reader))),
            target_sample_rate,
            decoded,
        ),
        decoded matches Ok(Decoded::Pcm(_)) ==> !wave_left(*old(reader)).format.is_float && wave_left(
            *old(reader),
        ).format.bits_per_sample == 16 && wave_left(*old(reader)).format.sample_rate == target_sample_rate,
        decoded is Ok && wave_left(*old(reader)).format.sample_rate != target_sample_rate ==> (
        decoded->Ok_0 matches Decoded::Ints { sample_rate, resample, .. } && resample && sample_rate
            == wave_left(*old(reader)).format.sample_rate) || (
        decoded->Ok_0 matches Decoded::Floats { sample_rate, resample, .. } && resample && sample_rate
            == wave_left(*old(reader)).format.sample_rate),
{
    let format = wave_format(reader);
    let resample = format.sample_rate != target_sample_rate;
    if !format.is_float && format.bits_per_sample == 16 && !resample {
        match take_i16(reader, format.channels) {
            Ok(samples) => Ok(Decoded::Pcm(samples)),
            Err(message) => Err(AudioError::Wave(message)),
        }
    } else if !format.is_float {
        match take_i32(reader, format.channels) {
            Ok(samples) => Ok(
                Decoded::Ints {
                    samples,
                    bits_per_sample: format.bits_per_sample,
                    sample_rate: format.sample_rate,
                    resample,
                },
            ),
            Err(message) => Err(AudioError::Wave(message)),
        }
    } else if format.bits_per_sample == 32 {
        Ok(
            Decoded::Floats {
                channels: format.channels,
                sample_rate: format.sample_rate,
                resample,
            },
        )
    } else {
        Err(AudioError::Unsupported(format))
    }
}

/// The samples as little-endian bytes.
pub fn encode_pcm(samples: &[i16]) -> (wave: Vec<u8>)
    ensures
        wave@ == i16s_le(samples@),
{
    let mut wave: Vec<u8> = Vec::new();
    let mut i: usize = 0;
    assert(samples@.take(0) =~= Seq::<i16>::empty());
    while i < samples.len()
        invariant
            i <= samples@.len(),
            wave@ == i16s_le(samples@.take(i as int)),
        decreases samples@.len() - i,
    {
        put_i16_le(&mut wave, samples[i]);
        assert(samples@.take(i + 1).drop_last() =~= samples@.take(i as int));
        i = i + 1;
    }
    assert(samples@.take(i as int) =~= samples@);
    wave
}

/// Of items that are all good, exactly those of the first channel are taken:
/// the first of every `stride`.
pub proof fn law_first_channel_only<T>(values: Seq<T>, stride: int, count: int)
    requires
        stride > 0,
        values.len() == stride * count,
    ensures
        strided(
            values.map_values(|value: T| Ok::<T, Seq<char>>(value)),
            stride,
            0,
        ) == Ok::<Seq<T>, Seq<char>>(Seq::new(count as nat, |i: int| values[stride * i])),
    decreases values.len(),
{
    let items = values.map_values(|value: T| Ok::<T, Seq<char>>(value));
    let expected = Seq::new(count as nat, |i: int| values[stride * i]);
    if values.len() == 0 {
        assert(count == 0) by (nonlinear_arith)
            requires
                0 == stride * count,
                stride > 0,
        ;
        assert(expected =~= Seq::<T>::empty());
    } else {
        assert(count > 0) by (nonlinear_arith)
            requires
                stride * count > 0,
                stride > 0,
        ;
        assert(stride * count >= stride) by (nonlinear_arith)
            requires
                stride > 0,
                count > 0,
        ;
        let rest = values.skip(stride);
        assert(rest.len() == stride * (count - 1)) by (nonlinear_arith)
            requires
                values.len() == stride * count,
                rest.len() == values.len() - stride,
        ;
        law_first_channel_only(rest, stride, count - 1);
        lemma_skips(values.drop_first(), stride, stride - 1);
        assert(items.drop_first() =~= values.drop_first().map_values(
            |value: T| Ok::<T, Seq<char>>(value),
        ));
        assert(values.drop_first().skip(stride - 1) =~= rest);
        let tail = Seq::new((count - 1) as nat, |i: int| rest[stride * i]);
        assert forall|i: int| 0 <= i < count - 1 implies tail[i] == values[stride * (i + 1)] by {
            assert(stride * (i + 1) == stride * i + stride) by (nonlinear_arith);
            assert(0 <= stride * i && stride * i + stride < values.len()) by (nonlinear_arith)
                requires
                    0 <= i < count - 1,
                    stride > 0,
                    values.len() == stride * count,
            ;
        }
        assert(stride * 0 == 0) by (nonlinear_arith);
        assert(seq![values[0]] + tail =~= expected);
    }
}

proof fn lemma_skips<T>(values: Seq<T>, stride: int, skip: int)
    requires
        0 <= skip <= values.len(),
    ensures
        strided(
            values.map_values(|value: T| Ok::<T, Seq<char>>(value)),
            stride,
            skip,
        ) == strided(
            values.skip(skip).map_values(|value: T| Ok::<T, Seq<char>>(value)),
            stride,
            0,
        ),
    decreases skip,
{
    let items = values.map_values(|value: T| Ok::<T, Seq<char>>(value));
    if skip == 0 {
        assert(values.skip(0) =~= values);
    } else {
        lemma_skips(values.drop_first(), stride, skip - 1);
        assert(items.drop_first() =~= values.drop_first().map_values(
            |value: T| Ok::<T, Seq<char>>(value),
        ));
        assert(values.drop_first().skip(skip - 1) =~= values.skip(skip));
    }
}

/// What is served as it is, and what is not. A result of plain samples means
/// that the file holds 16-bit whole numbers at exactly the rate asked for. A
/// file at another rate is always marked for resampling, with its own rate, and
/// one at that rate never is. Whole numbers keep their width, floats must have
/// 32 bits, and only other floats are unsupported.
pub proof fn law_passed_through_only_at_the_target_rate(
    wave: WaveModel,
    target: u32,
    result: Result<Decoded, AudioError>,
)
    requires
        decodes(Ok::<WaveModel, Seq<char>>(wave), target, result),
    ensures
        result matches Ok(Decoded::Pcm(_)) ==> !wave.format.is_float
            && wave.format.bits_per_sample == 16 && wave.format.sample_rate == target,
        result matches Ok(Decoded::Ints { sample_rate, bits_per_sample, resample, .. }) ==> !wave.format.is_float
            && sample_rate == wave.format.sample_rate && bits_per_sample == wave.format.bits_per_sample
            && (resample <==> wave.format.sample_rate != target),
        result matches Ok(Decoded::Floats { channels, sample_rate, resample }) ==> wave.format.is_float
            && wave.format.bits_per_sample == 32 && channels == wave.format.channels && sample_rate
            == wave.format.sample_rate && (resample <==> wave.format.sample_rate != target),
        result is Ok && wave.format.sample_rate != target ==> !(result->Ok_0 is Pcm),
        wave.format.is_float && wave.format.bits_per_sample == 32 ==> result is Ok,
        wave.format.is_float && wave.format.bits_per_sample != 32 ==> result == Err::<
            Decoded,
            AudioError,
        >(AudioError::Unsupported(wave.format)),
        !wave.format.is_float && wave.format.bits_per_sample == 16 && wave.format.sample_rate
            == target && result is Ok ==> result->Ok_0 is Pcm,
        !wave.format.is_float ==> !(result matches Err(AudioError::Unsupported(_))),
{
}

/// The first error among the items of the first channel is item `k` of it.
pub open spec fn is_first_error<T>(
    items: Seq<Result<T, Seq<char>>>,
    stride: int,
    skip: int,
    k: int,
    message: Seq<char>,
) -> bool {
    &&& 0 <= k
    &&& 0 <= skip + stride * k < items.len()
    &&& items[skip + stride * k] == Err::<T, Seq<char>>(message)
    &&& forall|j: int|
        0 <= j < k ==> 0 <= skip + stride * j < items.len() && #[trigger] items[skip + stride * j]
            is Ok
}

/// Some item of the first channel is bad, and the first of those has this message.
pub open spec fn first_error_is<T>(
    items: Seq<Result<T, Seq<char>>>,
    stride: int,
    skip: int,
    message: Seq<char>,
) -> bool {
    exists|k: int| is_first_error(items, stride, skip, k, message)
}

/// Item `skip + stride * k` is good and holds `value`.
pub open spec fn is_item<T>(
    items: Seq<Result<T, Seq<char>>>,
    stride: int,
    skip: int,
    k: int,
    value: T,
) -> bool {
    &&& 0 <= skip + stride * k < items.len()
    &&& items[skip + stride * k] is Ok
    &&& items[skip + stride * k]->Ok_0 == value
}

/// Value `k` is item `skip + stride * k`, and there is no further one.
pub open spec fn takes_every<T>(
    items: Seq<Result<T, Seq<char>>>,
    stride: int,
    skip: int,
    values: Seq<T>,
) -> bool {
    &&& forall|k: int|
        0 <= k < values.len() ==> #[trigger] is_item(items, stride, skip, k, values[k])
    &&& items.len() <= skip + stride * values.len()
}

proof fn lemma_strided<T>(items: Seq<Result<T, Seq<char>>>, stride: int, skip: int)
    requires
        0 <= skip < stride,
    ensures
        strided(items, stride, skip) matches Ok(values) ==> takes_every(items, stride, skip, values),
        strided(items, stride, skip) matches Err(message) ==> first_error_is(
            items,
            stride,
            skip,
            message,
        ),
    decreases items.len(),
{
    assert(stride * 0 == 0) by (nonlinear_arith);
    if items.len() > 0 {
        let rest = items.drop_first();
        let next: int = if skip > 0 { skip - 1 } else { stride - 1 };
        lemma_strided(rest, stride, next);
        if skip > 0 {
            match strided(rest, stride, next) {
                Ok(values) => {
                    assert forall|k: int| 0 <= k < values.len() implies #[trigger] is_item(
                        items,
                        stride,
                        skip,
                        k,
                        values[k],
                    ) by {
                        assert(is_item(rest, stride, next, k, values[k]));
                    }
                    assert(takes_every(items, stride, skip, values));
                    assert(strided(items, stride, skip) == Ok::<Seq<T>, Seq<char>>(values));
                },
                Err(message) => {
                    let k = choose|k: int| is_first_error(rest, stride, next, k, message);
                    assert forall|j: int| 0 <= j < k implies 0 <= skip + stride * j < items.len()
                        && #[trigger] items[skip + stride * j] is Ok by {
                        assert(rest[next + stride * j] is Ok);
                    }
                    assert(is_first_error(items, stride, skip, k, message));
                    assert(first_error_is(items, stride, skip, message));
                    assert(strided(items, stride, skip) == Err::<Seq<T>, Seq<char>>(message));
                },
            }
        } else {
            match items[0] {
                Err(message) => {
                    assert(is_first_error(items, stride, skip, 0, message));
                    assert(first_error_is(items, stride, skip, message));
                    assert(strided(items, stride, skip) == Err::<Seq<T>, Seq<char>>(message));
                },
                Ok(value) => match strided(rest, stride, next) {
                    Ok(values) => {
                        let all = seq![value] + values;
                        assert forall|k: int| 0 <= k < all.len() implies #[trigger] is_item(
                            items,
                            stride,
                            skip,
                            k,
                            all[k],
                        ) by {
                            if k > 0 {
                                assert(is_item(rest, stride, next, k - 1, values[k - 1]));
                                assert(stride * k == stride * (k - 1) + stride) by (nonlinear_arith);
                            }
                        }
                        assert(stride * all.len() == stride * values.len() + stride)
                            by (nonlinear_arith)
                            requires
                                all.len() == values.len() + 1,
                        ;
                        assert(takes_every(items, stride, skip, all));
                        assert(strided(items, stride, skip) == Ok::<Seq<T>, Seq<char>>(all));
                    },
                    Err(message) => {
                        let k = choose|k: int| is_first_error(rest, stride, next, k, message);
                        assert(stride * (k + 1) == stride * k + stride) by (nonlinear_arith);
                        assert forall|j: int| 0 <= j < k + 1 implies 0 <= skip + stride * j
                            < items.len() && #[trigger] items[skip + stride * j] is Ok by {
                            if j > 0 {
                                assert(rest[next + stride * (j - 1)] is Ok);
                                assert(stride * j == stride * (j - 1) + stride) by (nonlinear_arith);
                            }
                        }
                        assert(is_first_error(items, stride, skip, k + 1, message));
                        assert(first_error_is(items, stride, skip, message));
                        assert(strided(items, stride, skip) == Err::<Seq<T>, Seq<char>>(message));
                    },
                },
            }
        }
    } else {
        assert(takes_every(items, stride, skip, Seq::<T>::empty()));
        assert(strided(items, stride, skip) == Ok::<Seq<T>, Seq<char>>(Seq::empty()));
    }
}

/// The samples are those of the first channel, in order and without a gap:
/// sample `k` is item `channels * k` of the file, as many as there are; and the
/// message of a failure is that of the first such item that is bad.
pub proof fn law_samples_are_those_of_the_first_channel(
    wave: WaveModel,
    target: u32,
    result: Result<Decoded, AudioError>,
)
    requires
        decodes(Ok::<WaveModel, Seq<char>>(wave), target, result),
        wave.format.channels > 0,
    ensures
        result matches Ok(Decoded::Pcm(samples)) ==> takes_every(
            wave.i16s,
            wave.format.channels as int,
            0,
            samples@,
        ),
        result matches Ok(Decoded::Ints { samples, .. }) ==> takes_every(
            wave.i32s,
            wave.format.channels as int,
            0,
            samples@,
        ),
        result matches Err(AudioError::Wave(message)) ==> first_error_is(
            wave.i16s,
            wave.format.channels as int,
            0,
            message@,
        ) || first_error_is(wave.i32s, wave.format.channels as int, 0, message@),
        !wave.format.is_float && (forall|k: int|
            0 <= k < wave.i16s.len() ==> #[trigger] wave.i16s[k] is Ok) && (forall|k: int|
            0 <= k < wave.i32s.len() ==> #[trigger] wave.i32s[k] is Ok) ==> result is Ok,
{
    let stride = wave.format.channels as int;
    lemma_strided(wave.i16s, stride, 0);
    lemma_strided(wave.i32s, stride, 0);
}

} // verus!
