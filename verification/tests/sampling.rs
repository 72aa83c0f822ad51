use blake2::digest::{Update, VariableOutput};
use tensorlane::sampling::{
    dashed, language_id, language_position, speaker_id, speaker_of_digest, QuerySampler, SampleRow,
    Sampler,
};

fn row(batch_idx: u64, sample_idx: u64, id: u128) -> SampleRow {
    SampleRow {
        audio_id: id,
        duration: 2.0f64.to_bits(),
        language: Some("en".into()),
        speaker_id: None,
        text: Some("tˈuː".into()),
        batch_idx,
        sample_idx,
        object_path: "audio.tar".into(),
        byte_offset: 0,
        byte_length: 100,
    }
}

const SPEAKER_ZERO: u64 = 300471914551172982;
const SPEAKER_ONE: u64 = 767981220482591493;

fn languages(list: &[&str]) -> Vec<String> {
    list.iter().map(|text| text.to_string()).collect()
}

#[test]
fn groups_query_rows_and_preserves_repeated_samples() {
    let rows = vec![row(0, 0, 1), row(0, 1, 2), row(4, 0, 1)];
    let mut sampler = QuerySampler::new(rows, &[]).unwrap();
    assert_eq!(sampler.len(), 2);
    let first = sampler.next_batch().unwrap().unwrap();
    assert_eq!(
        first.iter().map(|s| s.audio_id).collect::<Vec<_>>(),
        vec![1, 2]
    );
    assert_eq!(sampler.len(), 1);
    let last = sampler.next_batch().unwrap().unwrap();
    assert_eq!(last.len(), 1);
    assert_eq!(last[0].audio_id, 1);
    assert!(sampler.next_batch().unwrap().is_none());
    assert!(sampler.next_batch().unwrap().is_none());
}

#[test]
fn rejects_unordered_or_duplicate_positions() {
    for positions in [[(2, 0), (1, 0)], [(0, 2), (0, 1)], [(0, 1), (0, 1)]] {
        let rows = positions
            .into_iter()
            .map(|(batch, sample)| row(batch, sample, 1))
            .collect();
        assert!(QuerySampler::new(rows, &[]).is_err());
    }
}

#[test]
fn empty_query_ends_and_missing_metadata_fails() {
    let mut sampler = QuerySampler::new(vec![], &[]).unwrap();
    assert!(sampler.next_batch().unwrap().is_none());
    let mut missing_text = row(0, 0, 1);
    missing_text.text = None;
    assert!(QuerySampler::new(vec![missing_text], &[]).is_err());
    let mut missing_language = row(0, 0, 1);
    missing_language.language = None;
    assert!(QuerySampler::new(vec![missing_language], &[]).is_err());
}

#[test]
fn validation_replays_identical_batches_across_passes() {
    let mut sampler = QuerySampler::new(vec![row(0, 0, 1), row(0, 1, 2), row(1, 2, 3)], &[])
        .unwrap()
        .repeat();
    for _ in 0..3 {
        let first = sampler.next_batch().unwrap().unwrap();
        assert_eq!(
            first.iter().map(|s| s.audio_id).collect::<Vec<_>>(),
            vec![1, 2]
        );
        assert_eq!(sampler.next_batch().unwrap().unwrap()[0].audio_id, 3);
    }
    let mut empty = QuerySampler::new(vec![], &[]).unwrap().repeat();
    assert!(empty.next_batch().unwrap().is_none());
}

#[test]
fn each_refusal_has_its_message() {
    let error = |rows: Vec<SampleRow>, list: &[String]| QuerySampler::new(rows, list).err().unwrap();
    assert_eq!(
        error(vec![row(1, 0, 1), row(0, 0, 1)], &[]),
        "query rows must be strictly ordered by batch_idx, sample_idx"
    );
    let mut missing_text = row(0, 0, 1);
    missing_text.text = None;
    missing_text.language = None;
    assert_eq!(error(vec![missing_text], &[]), "sample is missing text");
    let mut missing_language = row(0, 0, 1);
    missing_language.language = None;
    assert_eq!(error(vec![missing_language], &[]), "sample is missing language");
    assert_eq!(
        error(vec![row(0, 0, 1)], &languages(&["de"])),
        "training audio is missing its language"
    );
}

#[test]
fn samples_carry_what_their_rows_say() {
    let mut with_speaker = row(3, 7, 9);
    with_speaker.speaker_id = Some("speaker-1".into());
    with_speaker.language = Some(" EN_us ".into());
    with_speaker.byte_offset = 5;
    let mut sampler = QuerySampler::new(vec![with_speaker], &languages(&["de", "en"]))
        .unwrap();
    let batch = sampler.next_batch().unwrap().unwrap();
    let sample = &batch[0];
    assert_eq!(sample.audio_id, 9);
    assert_eq!(f64::from_bits(sample.duration), 2.0);
    assert_eq!(sample.language_id, 1);
    assert_eq!(sample.speaker_id, speaker_id(Some("speaker-1".into())));
    assert_eq!(sample.object.path, "audio.tar");
    assert_eq!(sample.object.offset, 5);
    assert_eq!(sample.object.length, 100);
    assert_eq!(sample.text.len() % 8, 0);
    assert_eq!(&sample.text[..8], &[0u8; 8]);
}

#[test]
fn audio_ids_follow_the_batches() {
    let mut sampler =
        QuerySampler::new(vec![row(0, 0, 4), row(0, 1, 2), row(1, 0, 9), row(2, 0, 4)], &[])
            .unwrap();
    assert_eq!(sampler.audio_ids(), vec![4, 2, 9, 4]);
    let _ = sampler.next_batch();
    assert_eq!(sampler.audio_ids(), vec![9, 4]);
}

#[test]
fn repeating_begins_with_what_is_left() {
    let mut sampler = QuerySampler::new(vec![row(0, 0, 1), row(1, 0, 2), row(2, 0, 3)], &[])
        .unwrap();
    let _ = sampler.next_batch();
    let mut repeating = sampler.repeat();
    let played: Vec<u128> = (0..5)
        .map(|_| repeating.next_batch().unwrap().unwrap()[0].audio_id)
        .collect();
    assert_eq!(played, vec![2, 3, 2, 3, 2]);
}

#[test]
fn languages_are_normalized_and_matched_by_prefix() {
    let list = languages(&["de", "en", "pt-br", "en-gb"]);
    assert_eq!(language_id("en", &list), Some(1));
    assert_eq!(language_id("\tEN_GB\n", &list), Some(1));
    assert_eq!(language_id("PT_BR", &list), Some(2));
    assert_eq!(language_id("pt", &list), None);
    assert_eq!(language_id("", &list), None);
    assert_eq!(language_id("anything", &[]), Some(0));
    assert_eq!(language_id("ÉN", &languages(&["én"])), Some(0));
    assert_eq!(language_position("en-gb-x", &list), Some(1));
    assert_eq!(language_position("EN", &list), None);
    assert_eq!(dashed("a_b-c__"), "a-b-c--");
}

#[test]
fn speakers_are_numbered_by_their_digest() {
    let digest = |name: &str| {
        let mut hasher = blake2::Blake2bVar::new(8).unwrap();
        hasher.update(name.as_bytes());
        let mut digest = [0u8; 8];
        hasher.finalize_variable(&mut digest).unwrap();
        u64::from_be_bytes(digest) % ((1u64 << 63) - 1)
    };
    assert_eq!(speaker_id(None), digest("0"));
    assert_eq!(speaker_id(Some("Zoë".into())), digest("Zoë"));
    assert_eq!(speaker_id(None), SPEAKER_ZERO);
    assert_eq!(speaker_id(Some("speaker-1".into())), SPEAKER_ONE);
    assert_eq!(speaker_of_digest(&[0, 0, 0, 0, 0, 0, 1, 2]), 258);
    assert_eq!(speaker_of_digest(&[0x7f, 255, 255, 255, 255, 255, 255, 255]), 0);
    assert_eq!(speaker_of_digest(&[255, 255, 255, 255, 255, 255, 255, 255]), 1);
}

#[test]
fn white_space_around_a_language_is_trimmed() {
    let listed = languages(&["en"]);
    for c in (0..=0xffff).filter_map(char::from_u32) {
        let white = matches!(
            c,
            '\u{9}'..='\u{d}' | ' ' | '\u{85}' | '\u{a0}' | '\u{1680}' | '\u{2000}'..='\u{200a}'
                | '\u{2028}' | '\u{2029}' | '\u{202f}' | '\u{205f}' | '\u{3000}'
        );
        assert_eq!(language_id(&format!("{c}en"), &listed).is_some(), white);
    }
    assert_eq!(language_id(" \u{3000}EN \n", &listed), Some(0));
    assert_eq!(language_id("e n", &listed), None);
}
