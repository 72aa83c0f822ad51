//! Query rows, cut into the batches that a run plays.
use crate::pcm::{i64s_of, law_tokens_read_back};
use crate::symbols::{
    boundary_token_id, default_symbol_texts, law_last_occurrence_counts, law_pad_is_token_zero,
    symbol_map, tensor, text_to_tensor_bytes, tokens, unknown_after, TextCleaner, PAD_SYMBOL,
};
use crate::text::chars_of;
use crate::wire::{be_u64, be_value, i64s_le};
use blake2::digest::{Update, VariableOutput};
use std::collections::VecDeque;
use vstd::prelude::*;
use vstd::string::*;

verus! {

/// Speaker numbers are below 2^63 - 1.
pub const SPEAKER_MODULUS: u64 = 9_223_372_036_854_775_807;

/// A row of the sampling query; `duration` holds the bits of a 64-bit float.
pub struct SampleRow {
    pub audio_id: u128,
    pub duration: u64,
    pub language: Option<String>,
    pub speaker_id: Option<String>,
    pub text: Option<String>,
    pub batch_idx: u64,
    pub sample_idx: u64,
    pub object_path: String,
    pub byte_offset: i64,
    pub byte_length: i64,
}

/// Where the bytes of a sample are stored.
pub struct SampleObject {
    pub path: String,
    pub offset: i64,
    pub length: i64,
}

/// A sample of a batch.
pub struct Sample {
    pub duration: u64,
    pub audio_id: u128,
    pub language_id: i32,
    pub speaker_id: u64,
    pub text: Vec<u8>,
    pub object: SampleObject,
}

/// What a sample holds.
pub struct SampleModel {
    pub duration: u64,
    pub audio_id: u128,
    pub language_id: i32,
    pub speaker_id: u64,
    pub text: Seq<u8>,
    pub path: Seq<char>,
    pub offset: i64,
    pub length: i64,
}

impl View for Sample {
    type V = SampleModel;

    open spec fn view(&self) -> SampleModel {
        SampleModel {
            duration: self.duration,
            audio_id: self.audio_id,
            language_id: self.language_id,
            speaker_id: self.speaker_id,
            text: self.text@,
            path: self.object.path@,
            offset: self.object.offset,
            length: self.object.length,
        }
    }
}

/// What the samples of a batch hold.
pub open spec fn batch_model(batch: Seq<Sample>) -> Seq<SampleModel> {
    batch.map_values(|sample: Sample| sample@)
}

/// What the batches hold.
pub open spec fn batches_model(batches: Seq<Vec<Sample>>) -> Seq<Seq<SampleModel>> {
    batches.map_values(|batch: Vec<Sample>| batch_model(batch@))
}

/// A character with the Unicode property `White_Space`.
pub open spec fn is_white_space(c: char) -> bool {
    let code = c as int;
    ||| 0x9 <= code <= 0xd
    ||| code == 0x20
    ||| code == 0x85
    ||| code == 0xa0
    ||| code == 0x1680
    ||| 0x2000 <= code <= 0x200a
    ||| code == 0x2028
    ||| code == 0x2029
    ||| code == 0x202f
    ||| code == 0x205f
    ||| code == 0x3000
}

/// A text without the white space at either end.
pub open spec fn trimmed(text: Seq<char>) -> Seq<char>
    decreases text.len(),
{
    if text.len() > 0 && is_white_space(text[0]) {
        trimmed(text.drop_first())
    } else if text.len() > 0 && is_white_space(text.last()) {
        trimmed(text.drop_last())
    } else {
        text
    }
}

/// What `str::to_lowercase` makes of a text.
pub uninterp spec fn lowercased(text: Seq<char>) -> Seq<char>;

/// The eight-byte BLAKE2b digest of some bytes.
pub uninterp spec fn blake2b_64(bytes: Seq<u8>) -> Seq<u8>;

/// `str::trim`: the text without the characters at either end that have the
/// property `White_Space`.
#[verifier::external_body]
fn trim(text: &str) -> (result: String)
    ensures
        result@ == trimmed(text@),
{
    text.trim().to_owned()
}

/// `str::to_lowercase`: the text in lower case.
#[verifier::external_body]
fn to_lowercase(text: &str) -> (result: String)
    ensures
        result@ == lowercased(text@),
{
    text.to_lowercase()
}

/// `blake2::Blake2bVar` with eight bytes of output, fed with all of `bytes`
/// once: eight bytes that depend on `bytes` alone.
#[verifier::external_body]
fn digest_8(bytes: &[u8]) -> (digest: Vec<u8>)
    ensures
        digest@ == blake2b_64(bytes@),
        digest@.len() == 8,
{
    let mut hasher = blake2::Blake2bVar::new(8).unwrap();
    hasher.update(bytes);
    let mut digest = [0u8; 8];
    hasher.finalize_variable(&mut digest).unwrap();
    digest.to_vec()
}

/// `text` with every underscore turned into a hyphen.
pub open spec fn hyphens_for_underscores(text: Seq<char>) -> Seq<char> {
    text.map_values(|c: char| if c == '_' { '-' } else { c })
}

/// A language code in its normal form.
pub open spec fn normal_language(language: Seq<char>) -> Seq<char> {
    hyphens_for_underscores(lowercased(trimmed(language)))
}

/// The part of a text before its first hyphen.
pub open spec fn before_hyphen(text: Seq<char>) -> Seq<char>
    decreases text.len(),
{
    if text.len() == 0 || text[0] == '-' {
        Seq::empty()
    } else {
        seq![text[0]] + before_hyphen(text.drop_first())
    }
}

/// A listed language stands for a normal form that is equal to it, or whose
/// part before the hyphen is.
pub open spec fn stands_for(listed: Seq<char>, language: Seq<char>) -> bool {
    listed == language || listed == before_hyphen(language)
}

/// The place of the first listed language from `from` on that stands for
/// `language`.
pub open spec fn first_language(languages: Seq<String>, language: Seq<char>, from: int) -> Option<int>
    decreases languages.len() - from,
{
    if from < 0 || from >= languages.len() {
        None
    } else if stands_for(languages[from]@, language) {
        Some(from)
    } else {
        first_language(languages, language, from + 1)
    }
}

/// The number of a language in normal form: its place in the list, or zero
/// where there is no list.
pub open spec fn language_number(languages: Seq<String>, language: Seq<char>) -> Option<i32> {
    if languages.len() == 0 {
        Some(0)
    } else {
        match first_language(languages, language, 0) {
            Some(place) => Some(place as i32),
            None => None,
        }
    }
}

/// The number of a speaker with this digest.
pub open spec fn speaker_number(digest: Seq<u8>) -> u64 {
    (be_value(digest) % SPEAKER_MODULUS as nat) as u64
}

/// The name of a speaker; one without a name is called "0".
pub open spec fn speaker_name(speaker: Option<String>) -> Seq<char> {
    match speaker {
        Some(name) => name@,
        None => "0"@,
    }
}

/// The default symbol table.
pub open spec fn default_map() -> Map<Seq<char>, i64> {
    symbol_map(default_symbol_texts())
}

/// Turns every underscore into a hyphen.
pub fn dashed(text: &str) -> (result: String)
    ensures
        result@ == hyphens_for_underscores(text@),
{
    let chars = chars_of(text);
    let mut result = String::new();
    let mut i: usize = 0;
    assert(result@ =~= hyphens_for_underscores(text@.take(0)));
    while i < chars.len()
        invariant
            chars@ == text@,
            i <= chars@.len(),
            result@ == hyphens_for_underscores(text@.take(i as int)),
        decreases chars@.len() - i,
    {
        let c: char = chars[i];
        result.push(if c == '_' { '-' } else { c });
        assert(hyphens_for_underscores(text@.take(i + 1)) =~= hyphens_for_underscores(
            text@.take(i as int),
        ).push(if c == '_' { '-' } else { c }));
        i = i + 1;
    }
    assert(text@.take(i as int) =~= text@);
    result
}

fn prefix_before_hyphen(text: &str) -> (result: String)
    ensures
        result@ == before_hyphen(text@),
{
    let chars = chars_of(text);
    let mut result = String::new();
    let mut i: usize = 0;
    assert(chars@.skip(0) =~= text@);
    assert(result@ + before_hyphen(text@) =~= before_hyphen(text@));
    while i < chars.len() && chars[i] != '-'
        invariant
            chars@ == text@,
            i <= chars@.len(),
            result@ + before_hyphen(chars@.skip(i as int)) == before_hyphen(text@),
        decreases chars@.len() - i,
    {
        proof {
            let rest = chars@.skip(i as int);
            assert(rest.drop_first() =~= chars@.skip(i + 1));
            assert(result@.push(rest[0]) + before_hyphen(rest.drop_first()) =~= result@ + (
            seq![rest[0]] + before_hyphen(rest.drop_first())));
        }
        result.push(chars[i]);
        i = i + 1;
    }
    assert(result@ + Seq::<char>::empty() =~= result@);
    result
}

/// The number of a language in normal form.
pub fn language_position(normalized: &str, languages: &[String]) -> (number: Option<i32>)
    ensures
        number == language_number(languages@, normalized@),
{
    if languages.len() == 0 {
        return Some(0);
    }
    let whole = normalized.to_owned();
    let first = prefix_before_hyphen(normalized);
    let mut i: usize = 0;
    while i < languages.len()
        invariant
            i <= languages@.len(),
            languages@.len() > 0,
            whole@ == normalized@,
            first@ == before_hyphen(normalized@),
            first_language(languages@, normalized@, 0) == first_language(
                languages@,
                normalized@,
                i as int,
            ),
        decreases languages@.len() - i,
    {
        if languages[i] == whole || languages[i] == first {
            return Some(i as i32);
        }
        i = i + 1;
    }
    None
}

/// The number of a language: it is trimmed, put in lower case and hyphenated,
/// and looked up in the list.
pub fn language_id(language: &str, languages: &[String]) -> (number: Option<i32>)
    ensures
        number == language_number(languages@, normal_language(language@)),
{
    let normalized = dashed(to_lowercase(trim(language).as_str()).as_str());
    language_position(normalized.as_str(), languages)
}

/// The number of a speaker with this eight-byte digest.
pub fn speaker_of_digest(digest: &[u8]) -> (number: u64)
    requires
        digest@.len() == 8,
    ensures
        number == speaker_number(digest@),
        number < SPEAKER_MODULUS,
{
    be_u64(digest) % SPEAKER_MODULUS
}

/// The number of a speaker.
pub fn speaker_id(speaker: Option<String>) -> (number: u64)
    ensures
        number == speaker_number(blake2b_64(vstd::utf8::encode_utf8(speaker_name(speaker)))),
        number < SPEAKER_MODULUS,
{
    let name = match speaker {
        Some(name) => name,
        None => "0".to_owned(),
    };
    let digest = digest_8(name.as_str().as_bytes());
    speaker_of_digest(digest.as_slice())
}

impl Sample {
    /// A sample from what is known of it. It needs a pad symbol and a known
    /// language.
    pub fn new(
        audio_id: u128,
        duration: u64,
        text: &str,
        text_cleaner: &mut TextCleaner,
        language: &str,
        languages: &[String],
        speaker: Option<String>,
        object: SampleObject,
    ) -> (sample: Result<Sample, String>)
        requires
            old(text_cleaner).wf(),
        ensures
            final(text_cleaner).wf(),
            final(text_cleaner).map() == old(text_cleaner).map(),
            final(text_cleaner).unknown() == if old(text_cleaner).map().contains_key(PAD_SYMBOL@) {
                unknown_after(old(text_cleaner).unknown(), old(text_cleaner).map(), text@)
            } else {
                old(text_cleaner).unknown()
            },
            ({
                let map = old(text_cleaner).map();
                let number = language_number(languages@, normal_language(language@));
                match sample {
                    Ok(sample) => {
                        &&& map.contains_key(PAD_SYMBOL@)
                        &&& number is Some
                        &&& sample@ == SampleModel {
                            duration,
                            audio_id,
                            language_id: number->0,
                            speaker_id: speaker_number(
                                blake2b_64(vstd::utf8::encode_utf8(speaker_name(speaker))),
                            ),
                            text: i64s_le(tensor(map, map[PAD_SYMBOL@], text@)),
                            path: object.path@,
                            offset: object.offset,
                            length: object.length,
                        }
                    },
                    Err(message) => if !map.contains_key(PAD_SYMBOL@) {
                        message@ == "symbols are missing the pad symbol \"$\""@
                    } else {
                        number is None && message@ == "training audio is missing its language"@
                    },
                }
            }),
    {
        let boundary: i64 = match boundary_token_id(text_cleaner) {
            Ok(boundary) => boundary,
            Err(message) => return Err(message),
        };
        let text_tensor = text_to_tensor_bytes(text_cleaner, boundary, text);
        let number: i32 = match language_id(language, languages) {
            Some(number) => number,
            None => return Err("training audio is missing its language".to_owned()),
        };
        let speaker_id: u64 = speaker_id(speaker);
        Ok(
            Sample {
                audio_id,
                duration,
                language_id: number,
                speaker_id,
                text: text_tensor,
                object,
            },
        )
    }

    /// The same sample once more.
    pub fn copy(&self) -> (copy: Sample)
        ensures
            copy@ == self@,
    {
        let copy = Sample {
            duration: self.duration,
            audio_id: self.audio_id,
            language_id: self.language_id,
            speaker_id: self.speaker_id,
            text: self.text.clone(),
            object: SampleObject {
                path: self.object.path.clone(),
                offset: self.object.offset,
                length: self.object.length,
            },
        };
        assert(copy.text@ =~= self.text@);
        copy
    }
}

/// The position of a row: its batch, then its place in the batch.
pub open spec fn before(a: SampleRow, b: SampleRow) -> bool {
    a.batch_idx < b.batch_idx || (a.batch_idx == b.batch_idx && a.sample_idx < b.sample_idx)
}

/// Why a row that follows `previous` is refused.
pub open spec fn row_error(
    previous: Option<SampleRow>,
    row: SampleRow,
    languages: Seq<String>,
) -> Option<Seq<char>> {
    if previous matches Some(last) && !before(last, row) {
        Some("query rows must be strictly ordered by batch_idx, sample_idx"@)
    } else if row.text is None {
        Some("sample is missing text"@)
    } else if row.language is None {
        Some("sample is missing language"@)
    } else if language_number(languages, normal_language((row.language->0)@)) is None {
        Some("training audio is missing its language"@)
    } else {
        None
    }
}

/// The row before the last.
pub open spec fn next_to_last(rows: Seq<SampleRow>) -> Option<SampleRow> {
    if rows.len() < 2 { None } else { Some(rows[rows.len() - 2]) }
}

/// Why rows are refused: the reason for the first that is.
pub open spec fn rows_error(rows: Seq<SampleRow>, languages: Seq<String>) -> Option<Seq<char>>
    decreases rows.len(),
{
    if rows.len() == 0 {
        None
    } else {
        match rows_error(rows.drop_last(), languages) {
            Some(message) => Some(message),
            None => row_error(next_to_last(rows), rows.last(), languages),
        }
    }
}

/// The sample of a row.
pub open spec fn row_sample(row: SampleRow, languages: Seq<String>) -> SampleModel {
    SampleModel {
        duration: row.duration,
        audio_id: row.audio_id,
        language_id: language_number(languages, normal_language((row.language->0)@))->0,
        speaker_id: speaker_number(
            blake2b_64(vstd::utf8::encode_utf8(speaker_name(row.speaker_id))),
        ),
        text: i64s_le(tensor(default_map(), default_map()[PAD_SYMBOL@], (row.text->0)@)),
        path: row.object_path@,
        offset: row.byte_offset,
        length: row.byte_length,
    }
}

/// The rows in batches: a new one begins where the batch number changes.
pub open spec fn grouped(rows: Seq<SampleRow>, languages: Seq<String>) -> Seq<Seq<SampleModel>>
    decreases rows.len(),
{
    if rows.len() == 0 {
        Seq::empty()
    } else {
        let earlier = grouped(rows.drop_last(), languages);
        let sample = row_sample(rows.last(), languages);
        if next_to_last(rows) matches Some(last) && last.batch_idx == rows.last().batch_idx {
            earlier.drop_last().push(earlier.last().push(sample))
        } else {
            earlier.push(seq![sample])
        }
    }
}

/// A source of batches.
pub trait Sampler: Sized {
    /// The batch that comes after `index` others; `None` from the end on.
    spec fn batch_at(&self, index: nat) -> Option<Seq<SampleModel>>;

    /// The message with which the next batch cannot be drawn; `None` where it
    /// can, or where there is none.
    spec fn failure(&self) -> Option<Seq<char>>;

    /// The sampler does not fail, now or later.
    spec fn sound(&self) -> bool;

    /// The next batch; `Ok(None)` means that the sampler is exhausted.
    fn next_batch(&mut self) -> (batch: Result<Option<Vec<Sample>>, String>)
        ensures
            old(self).sound() ==> batch is Ok && final(self).sound(),
            match batch {
                Ok(Some(samples)) => {
                    &&& old(self).failure() is None
                    &&& old(self).batch_at(0) == Some(batch_model(samples@))
                    &&& forall|i: nat| #[trigger]
                        final(self).batch_at(i) == old(self).batch_at(i + 1)
                },
                Ok(None) => {
                    &&& old(self).failure() is None
                    &&& old(self).batch_at(0) is None
                    &&& forall|i: nat| #[trigger] final(self).batch_at(i) == old(self).batch_at(i)
                },
                Err(message) => old(self).failure() == Some(message@),
            },
    ;
}

/// The batches of a query, each once.
pub struct QuerySampler {
    batches: VecDeque<Vec<Sample>>,
}

/// The batches of a query, over and over.
pub struct RepeatingQuerySampler {
    batches: VecDeque<Vec<Sample>>,
    position: usize,
}

impl QuerySampler {
    /// The batches that are left.
    pub closed spec fn batches(self) -> Seq<Seq<SampleModel>> {
        batches_model(self.batches@)
    }

    /// How many batches are left.
    pub fn len(&self) -> (count: usize)
        ensures
            count == self.batches().len(),
    {
        self.batches.len()
    }

    /// Plays the batches that are left over and over.
    pub fn repeat(self) -> (repeating: RepeatingQuerySampler)
        ensures
            repeating.wf(),
            repeating.batches() == self.batches(),
            repeating.position() == 0,
    {
        RepeatingQuerySampler { batches: self.batches, position: 0 }
    }

    /// The audio of all the samples that are left, in order.
    pub fn audio_ids(&self) -> (ids: Vec<u128>)
        ensures
            ids@ == self.batches().flatten().map_values(|sample: SampleModel| sample.audio_id),
    {
        let mut ids: Vec<u128> = Vec::new();
        let mut i: usize = 0;
        let ghost all = batches_model(self.batches@);
        proof {
            assert(all.take(0) =~= Seq::<Seq<SampleModel>>::empty());
            assert(all.take(0).flatten() =~= Seq::<SampleModel>::empty());
            assert(ids@ =~= all.take(0).flatten().map_values(|s: SampleModel| s.audio_id));
        }
        while i < self.batches.len()
            invariant
                all == batches_model(self.batches@),
                i <= self.batches@.len(),
                ids@ == all.take(i as int).flatten().map_values(|s: SampleModel| s.audio_id),
            decreases self.batches@.len() - i,
        {
            let batch = &self.batches[i];
            let ghost begun = all.take(i as int).flatten();
            let ghost samples = batch_model(batch@);
            let mut k: usize = 0;
            assert(begun + samples.take(0) =~= begun);
            while k < batch.len()
                invariant
                    samples == batch_model(batch@),
                    k <= batch@.len(),
                    ids@ == (begun + samples.take(k as int)).map_values(
                        |s: SampleModel| s.audio_id,
                    ),
                decreases batch@.len() - k,
            {
                ids.push(batch[k].audio_id);
                proof {
                    assert(begun + samples.take(k + 1) =~= (begun + samples.take(k as int)).push(
                        samples[k as int],
                    ));
                    assert((begun + samples.take(k + 1)).map_values(|s: SampleModel| s.audio_id)
                        =~= (begun + samples.take(k as int)).map_values(
                        |s: SampleModel| s.audio_id,
                    ).push(samples[k as int].audio_id));
                }
                k = k + 1;
            }
            proof {
                assert(samples.take(k as int) =~= samples);
                assert(all.take(i + 1) =~= all.take(i as int).push(samples));
                all.take(i as int).lemma_flatten_push(samples);
            }
            i = i + 1;
        }
        assert(all.take(i as int) =~= all);
        ids
    }

    /// Cuts query rows into batches. Rows must be strictly ordered by batch and
    /// place, and each needs a text and a known language.
    pub fn new(rows: Vec<SampleRow>, languages: &[String]) -> (sampler: Result<QuerySampler, String>)
        ensures
            match sampler {
                Ok(sampler) => {
                    &&& rows_error(rows@, languages@) is None
                    &&& sampler.batches() == grouped(rows@, languages@)
                    &&& sampler.batches().flatten().len() == rows@.len()
                    &&& forall|i: int|
                        0 <= i < rows@.len() ==> {
                            let sample = #[trigger] sampler.batches().flatten()[i];
                            &&& rows@[i].text is Some
                            &&& i64s_of(sample.text) == seq![0i64] + tokens(
                                symbol_map(default_symbol_texts()),
                                (rows@[i].text->0)@,
                            ) + seq![0i64]
                            &&& sample.audio_id == rows@[i].audio_id
                            &&& sample.duration == rows@[i].duration
                            &&& sample.path == rows@[i].object_path@
                            &&& sample.offset == rows@[i].byte_offset
                            &&& sample.length == rows@[i].byte_length
                        }
                },
                Err(message) => rows_error(rows@, languages@) == Some(message@),
            },
    {
        let ghost all = rows@;
        let mut cleaner = TextCleaner::default();
        proof {
            let texts = default_symbol_texts();
            assert(texts[0] == PAD_SYMBOL@);
            assert(texts.contains(PAD_SYMBOL@));
            law_last_occurrence_counts(texts, PAD_SYMBOL@);
        }
        let mut batches: VecDeque<Vec<Sample>> = VecDeque::new();
        let mut batch: Vec<Sample> = Vec::new();
        let mut previous: Option<(u64, u64)> = None;
        proof {
            assert(all.take(0) =~= Seq::<SampleRow>::empty());
            assert(open_groups(batches@, batch@) =~= Seq::<Seq<SampleModel>>::empty());
        }
        for row in iter: rows
            invariant
                iter.seq() == all,
                all == rows@,
                cleaner.wf(),
                cleaner.map() == default_map(),
                default_map().contains_key(PAD_SYMBOL@),
                rows_error(all.take(iter.index() as int), languages@) is None,
                iter.index() == 0 ==> previous is None && batch@.len() == 0,
                iter.index() > 0 ==> previous == Some(
                    (all[iter.index() - 1].batch_idx, all[iter.index() - 1].sample_idx),
                ) && batch@.len() > 0,
                open_groups(batches@, batch@) == grouped(
                    all.take(iter.index() as int),
                    languages@,
                ),
        {
            let ghost index = iter.index() as int;
            let ghost taken = all.take(index + 1);
            proof {
                assert(row == all[index]);
                assert(taken.drop_last() =~= all.take(index));
                assert(taken.last() == row);
                if index > 0 {
                    assert(next_to_last(taken) == Some(all[index - 1]));
                }
                lemma_error_sticks(all, index + 1, languages@);
            }
            if let Some((last_batch, last_sample)) = previous {
                let ordered = last_batch < row.batch_idx || (last_batch == row.batch_idx
                    && last_sample < row.sample_idx);
                if !ordered {
                    return Err(
                        "query rows must be strictly ordered by batch_idx, sample_idx".to_owned(),
                    );
                }
                if last_batch != row.batch_idx {
                    let ghost closed_before = open_groups(batches@, batch@);
                    let mut full: Vec<Sample> = Vec::new();
                    std::mem::swap(&mut full, &mut batch);
                    batches.push_back(full);
                    proof {
                        assert(open_groups(batches@, batch@) =~= closed_before);
                    }
                }
            }
            previous = Some((row.batch_idx, row.sample_idx));
            let text = match row.text {
                Some(text) => text,
                None => return Err("sample is missing text".to_owned()),
            };
            let language = match row.language {
                Some(language) => language,
                None => return Err("sample is missing language".to_owned()),
            };
            let object = SampleObject {
                path: row.object_path,
                offset: row.byte_offset,
                length: row.byte_length,
            };
            let sample = match Sample::new(
                row.audio_id,
                row.duration,
                text.as_str(),
                &mut cleaner,
                language.as_str(),
                languages,
                row.speaker_id,
                object,
            ) {
                Ok(sample) => sample,
                Err(message) => return Err(message),
            };
            proof {
                assert(sample@ == row_sample(all[index], languages@));
                lemma_open_push(batches@, batch@, sample);
            }
            batch.push(sample);
        }
        assert(all.take(all.len() as int) =~= all);
        if batch.len() > 0 {
            let ghost closed_before = open_groups(batches@, batch@);
            batches.push_back(batch);
            assert(batches_model(batches@) =~= closed_before);
        }
        proof {
            law_accepted_rows(all, languages@);
            assert forall|i: int| 0 <= i < all.len() implies {
                let sample = #[trigger] grouped(all, languages@).flatten()[i];
                &&& i64s_of(sample.text) == seq![0i64] + tokens(
                    symbol_map(default_symbol_texts()),
                    (all[i].text->0)@,
                ) + seq![0i64]
                &&& sample.audio_id == all[i].audio_id
                &&& sample.duration == all[i].duration
                &&& sample.path == all[i].object_path@
                &&& sample.offset == all[i].byte_offset
                &&& sample.length == all[i].byte_length
            } by {
                law_sample_is_its_row(all, languages@, i);
            }
            law_grouping_keeps_every_row(all, languages@);
        }
        Ok(QuerySampler { batches })
    }
}

/// The finished batches and the one that is being filled.
spec fn open_groups(batches: Seq<Vec<Sample>>, batch: Seq<Sample>) -> Seq<Seq<SampleModel>> {
    if batch.len() == 0 {
        batches_model(batches)
    } else {
        batches_model(batches).push(batch_model(batch))
    }
}

proof fn lemma_open_push(batches: Seq<Vec<Sample>>, batch: Seq<Sample>, sample: Sample)
    ensures
        open_groups(batches, batch.push(sample)) == if batch.len() == 0 {
            open_groups(batches, batch).push(seq![sample@])
        } else {
            open_groups(batches, batch).drop_last().push(
                open_groups(batches, batch).last().push(sample@),
            )
        },
{
    assert(batch_model(batch.push(sample)) =~= batch_model(batch).push(sample@));
    if batch.len() == 0 {
        assert(batch_model(batch.push(sample)) =~= seq![sample@]);
    } else {
        assert(open_groups(batches, batch).drop_last() =~= batches_model(batches));
    }
}

proof fn lemma_error_sticks(rows: Seq<SampleRow>, n: int, languages: Seq<String>)
    requires
        0 <= n <= rows.len(),
    ensures
        rows_error(rows.take(n), languages) matches Some(message) ==> rows_error(rows, languages)
            == Some(message),
    decreases rows.len() - n,
{
    if n == rows.len() {
        assert(rows.take(n) =~= rows);
    } else {
        assert(rows.take(n + 1).drop_last() =~= rows.take(n));
        lemma_error_sticks(rows, n + 1, languages);
    }
}

impl Sampler for QuerySampler {
    open spec fn batch_at(&self, index: nat) -> Option<Seq<SampleModel>> {
        if index < self.batches().len() {
            Some(self.batches()[index as int])
        } else {
            None
        }
    }

    open spec fn failure(&self) -> Option<Seq<char>> {
        None
    }

    open spec fn sound(&self) -> bool {
        true
    }

    fn next_batch(&mut self) -> (batch: Result<Option<Vec<Sample>>, String>)
        ensures
            batch is Ok,
            match batch {
                Ok(Some(samples)) => {
                    &&& old(self).batches().len() > 0
                    &&& batch_model(samples@) == old(self).batches()[0]
                    &&& final(self).batches() == old(self).batches().drop_first()
                },
                _ => old(self).batches().len() == 0 && final(self).batches()
                    == old(self).batches(),
            },
    {
        let ghost before = self.batches@;
        let batch = self.batches.pop_front();
        proof {
            if before.len() > 0 {
                assert(batches_model(self.batches@) =~= batches_model(before).drop_first());
            }
        }
        Ok(batch)
    }
}

impl RepeatingQuerySampler {
    /// The batches of one pass.
    pub closed spec fn batches(self) -> Seq<Seq<SampleModel>> {
        batches_model(self.batches@)
    }

    /// The place of the next batch in the pass.
    pub closed spec fn position(self) -> nat {
        self.position as nat
    }

    /// The next batch is one of the pass.
    #[verifier::type_invariant]
    pub closed spec fn wf(self) -> bool {
        self.position < self.batches@.len() || (self.position == 0 && self.batches@.len() == 0)
    }
}

impl Sampler for RepeatingQuerySampler {
    open spec fn batch_at(&self, index: nat) -> Option<Seq<SampleModel>> {
        if self.batches().len() == 0 {
            None
        } else {
            Some(self.batches()[((self.position() + index) % self.batches().len()) as int])
        }
    }

    open spec fn failure(&self) -> Option<Seq<char>> {
        None
    }

    open spec fn sound(&self) -> bool {
        true
    }

    fn next_batch(&mut self) -> (batch: Result<Option<Vec<Sample>>, String>)
        ensures
            batch is Ok,
            final(self).batches() == old(self).batches(),
            match batch {
                Ok(Some(samples)) => {
                    &&& old(self).position() < old(self).batches().len()
                    &&& batch_model(samples@) == old(self).batches()[old(self).position() as int]
                    &&& final(self).position() == (old(self).position() + 1)
                        % old(self).batches().len()
                },
                _ => old(self).batches().len() == 0 && final(self).position()
                    == old(self).position(),
            },
    {
        proof {
            use_type_invariant(&*self);
        }
        let count: usize = self.batches.len();
        if count == 0 {
            return Ok(None);
        }
        let position: usize = self.position;
        let batch = copy_batch(&self.batches[position]);
        proof {
            let n = count as nat;
            assert(batches_model(self.batches@)[position as int] == batch_model(batch@));
            assert(position as nat % n == position) by (nonlinear_arith)
                requires
                    position < n,
            ;
        }
        self.position = if position + 1 == count { 0 } else { position + 1 };
        proof {
            if position + 1 == count {
                assert((position + 1) % count as int == 0) by (nonlinear_arith)
                    requires
                        position + 1 == count,
                        count > 0,
                ;
            } else {
                assert((position + 1) % count as int == position + 1) by (nonlinear_arith)
                    requires
                        0 <= position + 1 < count,
                ;
            }
            assert forall|i: nat| #[trigger] self.batch_at(i) == old(self).batch_at(i + 1) by {
                lemma_turn(position as nat, i, count as nat);
            }
        }
        Ok(Some(batch))
    }
}

proof fn lemma_turn(p: nat, i: nat, n: nat)
    requires
        n > 0,
    ensures
        ((p + 1) % n + i) % n == (p + (i + 1)) % n,
{
    vstd::arithmetic::div_mod::lemma_add_mod_noop_right(i as int, (p + 1) as int, n as int);
    assert((p + 1) % n + i == i + (p + 1) % n);
    assert(p + (i + 1) == i + (p + 1));
}

fn copy_batch(batch: &Vec<Sample>) -> (copy: Vec<Sample>)
    ensures
        batch_model(copy@) == batch_model(batch@),
{
    let mut copy: Vec<Sample> = Vec::new();
    let mut i: usize = 0;
    assert(batch_model(copy@) =~= batch_model(batch@).take(0));
    while i < batch.len()
        invariant
            i <= batch@.len(),
            batch_model(copy@) == batch_model(batch@).take(i as int),
        decreases batch@.len() - i,
    {
        let sample = batch[i].copy();
        proof {
            assert(batch_model(copy@.push(sample)) =~= batch_model(copy@).push(sample@));
            assert(batch_model(batch@).take(i + 1) =~= batch_model(batch@).take(i as int).push(
                batch@[i as int]@,
            ));
        }
        copy.push(sample);
        i = i + 1;
    }
    assert(batch_model(batch@).take(i as int) =~= batch_model(batch@));
    copy
}

/// Grouping loses and reorders nothing: put end to end, the batches hold the
/// samples of the rows in their order, and no batch is empty.
pub proof fn law_grouping_keeps_every_row(rows: Seq<SampleRow>, languages: Seq<String>)
    ensures
        grouped(rows, languages).flatten() == rows.map_values(
            |row: SampleRow| row_sample(row, languages),
        ),
        forall|i: int|
            0 <= i < grouped(rows, languages).len() ==> (#[trigger] grouped(
                rows,
                languages,
            )[i]).len() > 0,
        rows.len() > 0 ==> grouped(rows, languages).len() > 0,
    decreases rows.len(),
{
    let groups = grouped(rows, languages);
    let samples = rows.map_values(|row: SampleRow| row_sample(row, languages));
    if rows.len() == 0 {
        assert(groups.flatten() =~= samples);
    } else {
        let shorter = rows.drop_last();
        let earlier = grouped(shorter, languages);
        let sample = row_sample(rows.last(), languages);
        law_grouping_keeps_every_row(shorter, languages);
        assert(samples =~= shorter.map_values(|row: SampleRow| row_sample(row, languages)).push(
            sample,
        ));
        if next_to_last(rows) matches Some(last) && last.batch_idx == rows.last().batch_idx {
            let begun = earlier.drop_last();
            assert(earlier =~= begun.push(earlier.last()));
            begun.lemma_flatten_push(earlier.last());
            begun.lemma_flatten_push(earlier.last().push(sample));
            assert(begun.flatten() + earlier.last().push(sample) =~= (begun.flatten()
                + earlier.last()).push(sample));
            assert forall|i: int| 0 <= i < groups.len() implies (#[trigger] groups[i]).len() > 0 by {
                if i < begun.len() {
                    assert(groups[i] == earlier[i]);
                }
            }
        } else {
            earlier.lemma_flatten_push(seq![sample]);
            assert(earlier.flatten() + seq![sample] =~= earlier.flatten().push(sample));
            assert forall|i: int| 0 <= i < groups.len() implies (#[trigger] groups[i]).len() > 0 by {
                if i < earlier.len() {
                    assert(groups[i] == earlier[i]);
                }
            }
        }
    }
}

/// A batch ends exactly where the batch number changes: there are as many
/// batches as rows whose number differs from that of the row before.
pub proof fn law_one_batch_per_number(rows: Seq<SampleRow>, languages: Seq<String>, extra: SampleRow)
    requires
        rows.len() > 0,
    ensures
        grouped(rows.push(extra), languages).len() == grouped(rows, languages).len() + if extra.batch_idx
            == rows.last().batch_idx {
            0int
        } else {
            1int
        },
{
    law_grouping_keeps_every_row(rows, languages);
    let longer = rows.push(extra);
    assert(longer.drop_last() =~= rows);
    assert(next_to_last(longer) == Some(rows.last()));
}

/// Validation replays the same batches in every pass: the batch after one
/// whole pass is the batch of now.
pub proof fn law_passes_are_identical(sampler: RepeatingQuerySampler, index: nat)
    requires
        sampler.batches().len() > 0,
    ensures
        sampler.batch_at(index + sampler.batches().len()) == sampler.batch_at(index),
        sampler.batch_at(index) is Some,
{
    let n = sampler.batches().len();
    let p = sampler.position() + index;
    assert((p + n) % n == p % n) by {
        vstd::arithmetic::div_mod::lemma_mod_add_multiples_vanish(p as int, n as int);
    }
}

/// A repeating sampler with no batches is exhausted from the start.
pub proof fn law_nothing_to_repeat(sampler: RepeatingQuerySampler, index: nat)
    requires
        sampler.batches().len() == 0,
    ensures
        sampler.batch_at(index) is None,
{
}

/// A sample is its row: put end to end, the batches hold one sample per row,
/// and sample `i` has the audio, the duration and the place in storage of row
/// `i`. Its text, read as 64-bit numbers, is a zero, the tokens of the row's
/// text and a zero. Its speaker is the row's name, or "0", digested to a number
/// below 2^63 - 1. Its language is the number of the row's language, trimmed,
/// in lower case and with hyphens for underscores.
pub proof fn law_sample_is_its_row(rows: Seq<SampleRow>, languages: Seq<String>, i: int)
    requires
        0 <= i < rows.len(),
    ensures
        grouped(rows, languages).flatten().len() == rows.len(),
        ({
            let sample = grouped(rows, languages).flatten()[i];
            let row = rows[i];
            let read = i64s_of(sample.text);
            let inner = tokens(symbol_map(default_symbol_texts()), (row.text->0)@);
            &&& sample.audio_id == row.audio_id
            &&& sample.duration == row.duration
            &&& sample.path == row.object_path@
            &&& sample.offset == row.byte_offset
            &&& sample.length == row.byte_length
            &&& sample.text.len() == 8 * (inner.len() + 2)
            &&& read.len() == inner.len() + 2
            &&& read[0] == 0
            &&& read.last() == 0
            &&& forall|k: int| 0 <= k < inner.len() ==> read[k + 1] == #[trigger] inner[k]
            &&& read == seq![0i64] + inner + seq![0i64]
            &&& sample.speaker_id == be_value(
                blake2b_64(
                    vstd::utf8::encode_utf8(
                        match row.speaker_id {
                            Some(name) => name@,
                            None => seq!['0'],
                        },
                    ),
                ),
            ) % 0x7fff_ffff_ffff_ffff
            &&& row.language matches Some(language) ==> (language_number(
                languages,
                lowercased(trimmed(language@)).map_values(
                    |c: char|
                        if c == '_' {
                            '-'
                        } else {
                            c
                        },
                ),
            ) matches Some(number) ==> sample.language_id == number)
        }),
{
    law_grouping_keeps_every_row(rows, languages);
    let row = rows[i];
    let sample = grouped(rows, languages).flatten()[i];
    assert(sample == row_sample(row, languages));
    let text = (row.text->0)@;
    law_pad_is_token_zero();
    let framed = tensor(default_map(), 0, text);
    law_tokens_read_back(framed);
    assert(i64s_of(sample.text) == framed);
    reveal_strlit("0");
    assert("0"@ =~= seq!['0']);
    if let Some(language) = row.language {
        assert(normal_language(language@) =~= lowercased(trimmed(language@)).map_values(
            |c: char|
                if c == '_' {
                    '-'
                } else {
                    c
                },
        ));
    }
}

/// Rows are accepted exactly when each has a text and a language with a number,
/// and each stands behind the one before: in a later batch, or in the same
/// batch at a later place.
pub proof fn law_accepted_rows(rows: Seq<SampleRow>, languages: Seq<String>)
    ensures
        rows_error(rows, languages) is None <==> {
            &&& forall|i: int|
                0 <= i < rows.len() ==> {
                    &&& (#[trigger] rows[i]).text is Some
                    &&& rows[i].language is Some
                    &&& language_number(languages, normal_language((rows[i].language->0)@)) is Some
                }
            &&& forall|i: int|
                0 < i < rows.len() ==> {
                    let last = rows[i - 1];
                    let row = #[trigger] rows[i];
                    last.batch_idx < row.batch_idx || (last.batch_idx == row.batch_idx
                        && last.sample_idx < row.sample_idx)
                }
        },
    decreases rows.len(),
{
    if rows.len() > 0 {
        let shorter = rows.drop_last();
        law_accepted_rows(shorter, languages);
        let n = rows.len() - 1;
        assert forall|i: int| 0 <= i < n implies #[trigger] shorter[i] == rows[i] by {}
        if rows_error(rows, languages) is None {
            assert forall|i: int| 0 <= i < rows.len() implies {
                &&& (#[trigger] rows[i]).text is Some
                &&& rows[i].language is Some
                &&& language_number(languages, normal_language((rows[i].language->0)@)) is Some
            } by {
                if i < n {
                    assert(shorter[i] == rows[i]);
                }
            }
            assert forall|i: int| 0 < i < rows.len() implies {
                let last = rows[i - 1];
                let row = #[trigger] rows[i];
                last.batch_idx < row.batch_idx || (last.batch_idx == row.batch_idx
                    && last.sample_idx < row.sample_idx)
            } by {
                if i < n {
                    assert(shorter[i] == rows[i]);
                    assert(shorter[i - 1] == rows[i - 1]);
                }
            }
        } else if rows_error(shorter, languages) is None {
            assert(rows[n] == rows.last());
            if n > 0 {
                assert(next_to_last(rows) == Some(rows[n - 1]));
            }
        } else {
            if forall|i: int|
                0 <= i < rows.len() ==> {
                    &&& (#[trigger] rows[i]).text is Some
                    &&& rows[i].language is Some
                    &&& language_number(languages, normal_language((rows[i].language->0)@)) is Some
                } {
                assert forall|i: int| 0 <= i < shorter.len() implies {
                    &&& (#[trigger] shorter[i]).text is Some
                    &&& shorter[i].language is Some
                    &&& language_number(
                        languages,
                        normal_language((shorter[i].language->0)@),
                    ) is Some
                } by {
                    assert(shorter[i] == rows[i]);
                }
                let i = choose|i: int|
                    #![trigger shorter[i]]
                    0 < i < shorter.len() && !(shorter[i - 1].batch_idx < shorter[i].batch_idx || (
                    shorter[i - 1].batch_idx == shorter[i].batch_idx && shorter[i - 1].sample_idx
                        < shorter[i].sample_idx));
                assert(rows[i] == shorter[i] && rows[i - 1] == shorter[i - 1]);
            }
        }
    }
}

/// The first bad row says why the rows are refused: a row that does not stand
/// behind the one before, or else one without a text, without a language, or
/// with a language that has no number.
pub proof fn law_first_bad_row_is_named(rows: Seq<SampleRow>, languages: Seq<String>, k: int)
    requires
        0 <= k < rows.len(),
        rows_error(rows.take(k), languages) is None,
    ensures
        ({
            let row = rows[k];
            let ordered = k == 0 || rows[k - 1].batch_idx < row.batch_idx || (rows[k - 1].batch_idx
                == row.batch_idx && rows[k - 1].sample_idx < row.sample_idx);
            &&& !ordered ==> rows_error(rows, languages) == Some(
                "query rows must be strictly ordered by batch_idx, sample_idx"@,
            )
            &&& ordered && row.text is None ==> rows_error(rows, languages) == Some(
                "sample is missing text"@,
            )
            &&& ordered && row.text is Some && row.language is None ==> rows_error(rows, languages)
                == Some("sample is missing language"@)
            &&& ordered && row.text is Some && row.language is Some && language_number(
                languages,
                normal_language((row.language->0)@),
            ) is None ==> rows_error(rows, languages) == Some(
                "training audio is missing its language"@,
            )
        }),
{
    let taken = rows.take(k + 1);
    assert(taken.drop_last() =~= rows.take(k));
    assert(taken.last() == rows[k]);
    if k > 0 {
        assert(next_to_last(taken) == Some(rows[k - 1]));
    }
    lemma_error_sticks(rows, k + 1, languages);
}

/// Batches follow the batch numbers: the rows of one batch all have one number,
/// and the row that begins a batch has another number than the row before it.
pub proof fn law_batches_follow_the_numbers(rows: Seq<SampleRow>, languages: Seq<String>, b: int)
    requires
        0 <= b < grouped(rows, languages).len(),
    ensures
        ({
            let batches = grouped(rows, languages);
            let start = batches.take(b).flatten().len() as int;
            &&& batches[b].len() > 0
            &&& start + batches[b].len() <= rows.len()
            &&& b + 1 == batches.len() ==> start + batches[b].len() == rows.len()
            &&& forall|k: int|
                0 <= k < batches[b].len() ==> (#[trigger] rows[start + k]).batch_idx
                    == rows[start].batch_idx
            &&& b > 0 ==> start > 0 && rows[start - 1].batch_idx != rows[start].batch_idx
            &&& b == 0 ==> start == 0
        }),
    decreases rows.len(),
{
    let batches = grouped(rows, languages);
    let shorter = rows.drop_last();
    let earlier = grouped(shorter, languages);
    let n = shorter.len() as int;
    let start = batches.take(b).flatten().len() as int;
    law_grouping_keeps_every_row(rows, languages);
    law_grouping_keeps_every_row(shorter, languages);
    if b == 0 {
        assert(batches.take(0) =~= Seq::<Seq<SampleModel>>::empty());
        assert(batches.take(0).flatten() =~= Seq::<SampleModel>::empty());
    }
    if next_to_last(rows) matches Some(last) && last.batch_idx == rows.last().batch_idx {
        assert(batches.take(b) =~= earlier.take(b));
        law_batches_follow_the_numbers(shorter, languages, b);
        assert forall|k: int| 0 <= k < batches[b].len() implies (
        #[trigger] rows[start + k]).batch_idx == rows[start].batch_idx by {
            if start + k < n {
                assert(shorter[start + k].batch_idx == shorter[start].batch_idx);
            } else {
                assert(rows[start + k] == rows.last());
                assert(shorter[start + (k - 1)].batch_idx == shorter[start].batch_idx);
                assert(rows[rows.len() - 2] == shorter[start + (k - 1)]);
            }
        }
        if b > 0 {
            assert(rows[start - 1] == shorter[start - 1]);
        }
    } else if b < earlier.len() {
        assert(batches.take(b) =~= earlier.take(b));
        assert(batches[b] == earlier[b]);
        law_batches_follow_the_numbers(shorter, languages, b);
        assert forall|k: int| 0 <= k < batches[b].len() implies (
        #[trigger] rows[start + k]).batch_idx == rows[start].batch_idx by {
            assert(shorter[start + k].batch_idx == shorter[start].batch_idx);
        }
        if b > 0 {
            assert(rows[start - 1] == shorter[start - 1]);
        }
    } else {
        assert(batches.take(b) =~= earlier);
        assert(start == n);
        assert(batches[b].len() == 1);
    }
}

/// The language of a row: its place in the list is that of the first listed
/// language which equals it or equals `first`, its part before the first
/// hyphen; there is none where no listed language does. An empty list gives
/// zero.
pub proof fn law_language_is_the_first_listed(
    languages: Seq<String>,
    language: Seq<char>,
    first: Seq<char>,
)
    requires
        languages.len() <= i32::MAX,
        first.len() <= language.len(),
        language.take(first.len() as int) == first,
        !first.contains('-'),
        first.len() < language.len() ==> language[first.len() as int] == '-',
    ensures
        languages.len() == 0 ==> language_number(languages, language) == Some(0i32),
        languages.len() > 0 ==> match language_number(languages, language) {
            Some(number) => {
                &&& 0 <= number < languages.len()
                &&& languages[number as int]@ == language || languages[number as int]@ == first
                &&& forall|j: int|
                    0 <= j < number ==> (#[trigger] languages[j])@ != language && languages[j]@
                        != first
            },
            None => forall|j: int|
                0 <= j < languages.len() ==> (#[trigger] languages[j])@ != language && languages[j]@
                    != first,
        },
{
    lemma_before_hyphen(language, first);
    lemma_first_language(languages, language, 0);
}

proof fn lemma_before_hyphen(text: Seq<char>, first: Seq<char>)
    requires
        first.len() <= text.len(),
        text.take(first.len() as int) == first,
        !first.contains('-'),
        first.len() < text.len() ==> text[first.len() as int] == '-',
    ensures
        before_hyphen(text) == first,
    decreases text.len(),
{
    if first.len() == 0 {
        assert(before_hyphen(text) =~= first);
    } else {
        assert(text[0] == first[0]) by {
            assert(text.take(first.len() as int)[0] == first[0]);
        }
        assert(first.contains(first[0]));
        let rest = text.drop_first();
        let tail = first.drop_first();
        assert(rest.take(tail.len() as int) =~= tail) by {
            assert forall|k: int| 0 <= k < tail.len() implies rest[k] == tail[k] by {
                assert(text.take(first.len() as int)[k + 1] == first[k + 1]);
            }
        }
        assert(!tail.contains('-')) by {
            if tail.contains('-') {
                let k = tail.index_of('-');
                assert(first[k + 1] == '-');
                assert(first.contains('-'));
            }
        }
        lemma_before_hyphen(rest, tail);
        assert(seq![text[0]] + tail =~= first);
    }
}

proof fn lemma_first_language(languages: Seq<String>, language: Seq<char>, from: int)
    requires
        0 <= from <= languages.len(),
    ensures
        match first_language(languages, language, from) {
            Some(place) => {
                &&& from <= place < languages.len()
                &&& stands_for(languages[place]@, language)
                &&& forall|j: int|
                    from <= j < place ==> !stands_for((#[trigger] languages[j])@, language)
            },
            None => forall|j: int|
                from <= j < languages.len() ==> !stands_for((#[trigger] languages[j])@, language),
        },
    decreases languages.len() - from,
{
    if from < languages.len() && !stands_for(languages[from]@, language) {
        lemma_first_language(languages, language, from + 1);
    }
}

/// A trimmed text is the part of the text from `a` to `b`.
pub open spec fn is_trim(text: Seq<char>, a: int, b: int) -> bool {
    &&& 0 <= a <= b <= text.len()
    &&& trimmed(text) == text.subrange(a, b)
    &&& forall|k: int| 0 <= k < a ==> is_white_space(#[trigger] text[k])
    &&& forall|k: int| b <= k < text.len() ==> is_white_space(#[trigger] text[k])
    &&& a < b ==> !is_white_space(text[a]) && !is_white_space(text[b - 1])
}

proof fn lemma_trim_front(text: Seq<char>, a: int, b: int)
    requires
        text.len() > 0,
        is_white_space(text[0]),
        is_trim(text.drop_first(), a, b),
    ensures
        is_trim(text, a + 1, b + 1),
{
    let rest = text.drop_first();
    assert(text.subrange(a + 1, b + 1) =~= rest.subrange(a, b));
    assert(forall|k: int| 0 < k < text.len() ==> #[trigger] text[k] == rest[k - 1]);
}

proof fn lemma_trim_back(text: Seq<char>, a: int, b: int)
    requires
        text.len() > 0,
        !is_white_space(text[0]),
        is_white_space(text.last()),
        is_trim(text.drop_last(), a, b),
    ensures
        is_trim(text, a, b),
{
    let rest = text.drop_last();
    assert(text.subrange(a, b) =~= rest.subrange(a, b));
    assert(forall|k: int| 0 <= k < rest.len() ==> #[trigger] text[k] == rest[k]);
}

proof fn lemma_trim(text: Seq<char>) -> (ends: (int, int))
    ensures
        is_trim(text, ends.0, ends.1),
    decreases text.len(),
{
    if text.len() > 0 && is_white_space(text[0]) {
        let ends = lemma_trim(text.drop_first());
        lemma_trim_front(text, ends.0, ends.1);
        (ends.0 + 1, ends.1 + 1)
    } else if text.len() > 0 && is_white_space(text.last()) {
        let ends = lemma_trim(text.drop_last());
        lemma_trim_back(text, ends.0, ends.1);
        ends
    } else {
        assert(text.subrange(0, text.len() as int) =~= text);
        (0, text.len() as int)
    }
}

/// Trimming takes away white space at either end, all of it and nothing else.
pub proof fn law_trimming_takes_white_space_only(text: Seq<char>)
    ensures
        exists|a: int, b: int| is_trim(text, a, b),
{
    let ends = lemma_trim(text);
    assert(is_trim(text, ends.0, ends.1));
}

/// Underscores become hyphens, and every other character stays as and where it
/// is.
pub proof fn law_underscores_become_hyphens(text: Seq<char>, i: int)
    requires
        0 <= i < text.len(),
    ensures
        hyphens_for_underscores(text).len() == text.len(),
        text[i] == '_' ==> hyphens_for_underscores(text)[i] == '-',
        text[i] != '_' ==> hyphens_for_underscores(text)[i] == text[i],
{
}

/// The first pass plays the batches in their order, from where it stands.
pub proof fn law_pass_is_in_order(sampler: RepeatingQuerySampler, index: nat)
    requires
        sampler.position() + index < sampler.batches().len(),
    ensures
        sampler.batch_at(index) == Some(sampler.batches()[(sampler.position() + index) as int]),
{
    vstd::arithmetic::div_mod::lemma_small_mod(
        sampler.position() + index,
        sampler.batches().len(),
    );
}

/// What is said of a sample is what it holds.
pub proof fn law_model_is_the_sample(sample: Sample)
    ensures
        sample@.duration == sample.duration,
        sample@.audio_id == sample.audio_id,
        sample@.language_id == sample.language_id,
        sample@.speaker_id == sample.speaker_id,
        sample@.text == sample.text@,
        sample@.path == sample.object.path@,
        sample@.offset == sample.object.offset,
        sample@.length == sample.object.length,
{
}

/// What is said of a batch is what its samples hold, in order.
pub proof fn law_model_is_the_batch(batch: Seq<Sample>, i: int)
    requires
        0 <= i < batch.len(),
    ensures
        batch_model(batch).len() == batch.len(),
        batch_model(batch)[i] == batch[i]@,
{
}

/// What is said of some batches is what their samples hold, batch by batch.
pub proof fn law_model_is_the_batches(batches: Seq<Vec<Sample>>, b: int, i: int)
    requires
        0 <= b < batches.len(),
        0 <= i < batches[b]@.len(),
    ensures
        batches_model(batches).len() == batches.len(),
        batches_model(batches)[b].len() == batches[b]@.len(),
        batches_model(batches)[b][i] == batches[b]@[i]@,
{
}

} // verus!
