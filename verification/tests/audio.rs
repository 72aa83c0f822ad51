use std::io::Cursor;
use tensorlane::audio::{decode_audio, AudioError, Decoded, WaveFormat, TARGET_SAMPLE_RATE};

fn wave(spec: hound::WavSpec, write: impl Fn(&mut hound::WavWriter<&mut Cursor<Vec<u8>>>)) -> Vec<u8> {
    let mut cursor = Cursor::new(Vec::new());
    let mut writer = hound::WavWriter::new(&mut cursor, spec).unwrap();
    write(&mut writer);
    writer.finalize().unwrap();
    cursor.into_inner()
}

fn spec(channels: u16, rate: u32, bits: u16, format: hound::SampleFormat) -> hound::WavSpec {
    hound::WavSpec {
        channels,
        sample_rate: rate,
        bits_per_sample: bits,
        sample_format: format,
    }
}

#[test]
fn sixteen_bit_audio_at_the_target_rate_passes_through() {
    let bytes = wave(spec(1, 24_000, 16, hound::SampleFormat::Int), |writer| {
        for sample in [2i16, -3, 5, -7] {
            writer.write_sample(sample).unwrap();
        }
    });
    match decode_audio(&bytes, TARGET_SAMPLE_RATE) {
        Ok(Decoded::Pcm(samples)) => assert_eq!(samples, vec![2, -3, 5, -7]),
        _ => panic!("not passed through"),
    }
}

#[test]
fn only_the_first_channel_is_taken() {
    let bytes = wave(spec(3, 24_000, 16, hound::SampleFormat::Int), |writer| {
        for sample in [1i16, 10, 100, 2, 20, 200, 3, 30, 300] {
            writer.write_sample(sample).unwrap();
        }
    });
    match decode_audio(&bytes, 24_000) {
        Ok(Decoded::Pcm(samples)) => assert_eq!(samples, vec![1, 2, 3]),
        _ => panic!("not passed through"),
    }
}

#[test]
fn other_rates_and_widths_are_left_to_be_scaled() {
    let bytes = wave(spec(2, 16_000, 24, hound::SampleFormat::Int), |writer| {
        for sample in [70_000i32, 1, -70_000, 2] {
            writer.write_sample(sample).unwrap();
        }
    });
    match decode_audio(&bytes, 24_000) {
        Ok(Decoded::Ints {
            samples,
            bits_per_sample,
            sample_rate,
            resample,
        }) => {
            assert_eq!(samples, vec![70_000, -70_000]);
            assert_eq!(bits_per_sample, 24);
            assert_eq!(sample_rate, 16_000);
            assert!(resample);
        }
        _ => panic!("not scaled"),
    }
    let same_rate = wave(spec(1, 24_000, 8, hound::SampleFormat::Int), |writer| {
        writer.write_sample(-5i8).unwrap();
    });
    match decode_audio(&same_rate, 24_000) {
        Ok(Decoded::Ints { samples, resample, .. }) => {
            assert_eq!(samples, vec![-5]);
            assert!(!resample);
        }
        _ => panic!("not scaled"),
    }
}

#[test]
fn floats_are_left_to_be_read() {
    let bytes = wave(spec(2, 24_000, 32, hound::SampleFormat::Float), |writer| {
        writer.write_sample(0.5f32).unwrap();
        writer.write_sample(0.25f32).unwrap();
    });
    match decode_audio(&bytes, 24_000) {
        Ok(Decoded::Floats {
            channels,
            sample_rate,
            resample,
        }) => assert_eq!((channels, sample_rate, resample), (2, 24_000, false)),
        _ => panic!("not floats"),
    }
}

#[test]
fn bytes_that_are_no_wave_are_refused() {
    match decode_audio(b"RIFX and so on, nothing of use", 24_000) {
        Err(AudioError::Wave(message)) => {
            assert_eq!(message, "Ill-formed WAVE file: no RIFF tag found")
        }
        _ => panic!("accepted"),
    }
}

#[test]
fn a_wave_that_ends_early_is_refused() {
    let mut bytes = wave(spec(1, 24_000, 16, hound::SampleFormat::Int), |writer| {
        for sample in [2i16, -3, 5, -7] {
            writer.write_sample(sample).unwrap();
        }
    });
    bytes.truncate(bytes.len() - 3);
    assert!(matches!(decode_audio(&bytes, 24_000), Err(AudioError::Wave(_))));
}

#[test]
fn floats_of_unknown_width_are_unsupported() {
    let mut bytes = Vec::new();
    bytes.extend(b"RIFF");
    bytes.extend(60u32.to_le_bytes());
    bytes.extend(b"WAVEfmt ");
    bytes.extend(40u32.to_le_bytes());
    bytes.extend(0xfffeu16.to_le_bytes());
    bytes.extend(1u16.to_le_bytes());
    bytes.extend(24_000u32.to_le_bytes());
    bytes.extend(96_000u32.to_le_bytes());
    bytes.extend(4u16.to_le_bytes());
    bytes.extend(32u16.to_le_bytes());
    bytes.extend(22u16.to_le_bytes());
    bytes.extend(24u16.to_le_bytes());
    bytes.extend(0u32.to_le_bytes());
    bytes.extend([
        0x03, 0, 0, 0, 0, 0, 0x10, 0, 0x80, 0, 0, 0xaa, 0, 0x38, 0x9b, 0x71,
    ]);
    bytes.extend(b"data");
    bytes.extend(0u32.to_le_bytes());
    match decode_audio(&bytes, 24_000) {
        Err(AudioError::Unsupported(format)) => assert_eq!(
            format,
            WaveFormat {
                channels: 1,
                sample_rate: 24_000,
                bits_per_sample: 24,
                is_float: true,
            }
        ),
        _ => panic!("supported"),
    }
}
