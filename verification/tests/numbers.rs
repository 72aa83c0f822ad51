use tensorlane::audio::encode_pcm;
use tensorlane::ids::{parse_run_id, run_id_text};
use tensorlane::order::{is_less, sort_places};
use tensorlane::pcm::{decode_text, decode_wave, kept_frames};
use tensorlane::status::{Code, Status};
use tensorlane::text::{
    decimal, digit, hex, join_path, one_char, signed_decimal, string_of, zero_padded,
};
use tensorlane::wire::{be_u64, get_i16_le, get_i64_le, put_i16_le, put_i64_le};

#[test]
fn decimals_match_formatting() {
    for n in [0u64, 7, 9, 10, 99, 100, 12345, u64::MAX] {
        assert_eq!(decimal(n), n.to_string());
        assert_eq!(zero_padded(n, 9), format!("{n:09}"));
    }
    for n in [0i64, 5, -1, -10, i64::MIN, i64::MAX] {
        assert_eq!(signed_decimal(n), n.to_string());
    }
    assert_eq!(zero_padded(42, 9), "000000042");
    assert_eq!(zero_padded(1234567890, 9), "1234567890");
}

#[test]
fn hexadecimals_are_lower_case() {
    assert_eq!(hex(&[0, 1, 0xab, 0xff]), "0001abff");
    assert_eq!(hex(&[]), "");
    assert_eq!(digit(11), 'b');
    assert_eq!(one_char('é'), "é");
    assert_eq!(string_of(&['a', 'b', 'c'], 1, 3), "bc");
}

#[test]
fn paths_join_like_paths() {
    for (base, name) in [
        ("a", "b"),
        ("a/", "b"),
        ("", "b"),
        ("/", "b"),
        ("a", "/b"),
        ("a", ""),
        ("a/b", "c/d"),
    ] {
        assert_eq!(
            join_path(base, name),
            std::path::Path::new(base).join(name).to_str().unwrap()
        );
    }
}

#[test]
fn integers_round_trip_through_bytes() {
    for value in [0i16, 1, -1, 256, i16::MIN, i16::MAX] {
        let mut bytes = vec![9];
        put_i16_le(&mut bytes, value);
        assert_eq!(&bytes[1..], &value.to_le_bytes());
        assert_eq!(get_i16_le(&bytes, 1), value);
    }
    for value in [0i64, 1, -1, 1 << 40, i64::MIN, i64::MAX] {
        let mut bytes = vec![9];
        put_i64_le(&mut bytes, value);
        assert_eq!(&bytes[1..], &value.to_le_bytes());
        assert_eq!(get_i64_le(&bytes, 1), value);
    }
    assert_eq!(be_u64(&[1, 2]), 258);
    assert_eq!(be_u64(&[255; 8]), u64::MAX);
}

#[test]
fn waves_read_back_and_are_padded() {
    let samples = [0i16, -1, 32767, -32768, 2, -3];
    let bytes = encode_pcm(&samples);
    assert_eq!(bytes.len(), 12);
    assert_eq!(&bytes[..4], &[0, 0, 255, 255]);
    let wave = decode_wave(&bytes).ok().unwrap();
    assert_eq!(wave.samples, samples);
    assert_eq!(wave.left, 12_297);
    assert_eq!(wave.right, 12_297);
    assert_eq!(wave.left + samples.len() + wave.right, 24_600);

    let odd = decode_wave(&encode_pcm(&[1i16; 7])).ok().unwrap();
    assert_eq!((odd.left, odd.right), (12_296, 12_297));
    let long = decode_wave(&encode_pcm(&vec![1i16; 14_600])).ok().unwrap();
    assert_eq!((long.left, long.right), (5_000, 5_000));
    let almost = decode_wave(&encode_pcm(&vec![1i16; 14_599])).ok().unwrap();
    assert_eq!((almost.left, almost.right), (5_000, 5_001));
    assert_eq!(
        decode_wave(&[1, 2, 3]).err().unwrap(),
        "wave byte count is not divisible by two"
    );
}

#[test]
fn tokens_read_back() {
    let mut bytes = Vec::new();
    for token in [0i64, -5, 179] {
        put_i64_le(&mut bytes, token);
    }
    assert_eq!(decode_text(&bytes), Ok(vec![0, -5, 179]));
    assert_eq!(decode_text(&[]), Ok(vec![]));
    assert_eq!(
        decode_text(&bytes[..9]),
        Err("text byte count is not divisible by eight".to_string())
    );
    assert_eq!(kept_frames(7), 6);
    assert_eq!(kept_frames(8), 8);
    assert_eq!(kept_frames(0), 0);
}

#[test]
fn run_ids_parse_in_every_spelling() {
    let id = 0x550e8400_e29b_41d4_a716_446655440000u128;
    let text = run_id_text(id);
    assert_eq!(text, "550e8400-e29b-41d4-a716-446655440000");
    assert_eq!(text, uuid::Uuid::from_u128(id).to_string());
    for spelling in [
        text.clone(),
        text.to_uppercase(),
        text.replace('-', ""),
        format!("{{{text}}}"),
        format!("urn:uuid:{text}"),
        format!("URN:uuid:{text}"),
    ] {
        assert_eq!(parse_run_id(&spelling).ok(), Some(id));
    }
    assert_eq!(run_id_text(0), "00000000-0000-0000-0000-000000000000");
    for spelling in [
        "",
        "550e8400",
        "550e8400-e29b-41d4-a716-44665544000g",
        "550e8400+e29b-41d4-a716-446655440000",
        "(550e8400-e29b-41d4-a716-446655440000)",
        "url:uuid:550e8400-e29b-41d4-a716-446655440000",
    ] {
        let status = parse_run_id(spelling).err().unwrap();
        assert_eq!(status.code, Code::InvalidArgument);
        assert_eq!(status.message, "invalid run ID");
    }
}

#[test]
fn statuses_carry_their_codes() {
    assert_eq!(Status::invalid_argument("a").code, Code::InvalidArgument);
    assert_eq!(Status::not_found("b").code, Code::NotFound);
    assert_eq!(Status::unavailable("c").message, "c");
    assert_eq!(Status::internal("d".into()).code, Code::Internal);
}

#[test]
fn names_sort_by_their_bytes() {
    let names: Vec<Vec<u8>> = ["b", "a/b", "a", "é", "a", "B", "ab"]
        .iter()
        .map(|name| name.as_bytes().to_vec())
        .collect();
    let places = sort_places(&names);
    assert_eq!(places, vec![5, 2, 4, 1, 6, 0, 3]);
    assert!(is_less(b"a", b"ab"));
    assert!(!is_less(b"ab", b"a"));
    assert!(!is_less(b"a", b"a"));
    assert_eq!(sort_places(&vec![]), Vec::<usize>::new());
}
