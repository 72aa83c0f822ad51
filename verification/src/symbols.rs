//! The symbol table and the tokenizer.
//!
//! A text is cut from the left into symbols: at each position the longest
//! symbol of two or more characters wins, then the single character, and a
//! character that is no symbol is dropped. Nothing is normalized.
use crate::text::{chars_of, one_char};
use crate::wire::put_i64_le;
use vstd::hash_map::StringHashMap;
use vstd::prelude::*;
use vstd::string::*;

verus! {

pub const PAD_SYMBOL: &'static str = "$";

pub const START_SYMBOL: &'static str = "<start/>";

pub const END_SYMBOL: &'static str = "<end/>";

pub const PUNCTUATION_SYMBOLS: &'static str = ";:,.!?¡¿—…\"«»“” ";

pub const LETTER_SYMBOLS: &'static str = "ABCDEFGHIJKLMNOPQRSTUVWXYZabcdefghijklmnopqrstuvwxyz";

pub const IPA_SYMBOLS: &'static str =
    "ɑɐɒæɓʙβɔɕçɗɖðʤəɘɚɛɜɝɞɟʄɡɠɢʛɦɧħɥʜɨɪʝɭɬɫɮʟɱɯɰŋɳɲɴøɵɸθœɶʘɹɺɾɻʀʁɽʂʃʈʧʉʊʋⱱʌɣɤʍχʎʏʑʐʒʔʡʕʢǀǁǂǃˈˌːˑʼʴʰʱʲʷˠˤ˞↓↑→↗↘'̩'ᵻ";

/// The symbols, each as its characters.
pub open spec fn symbol_texts(symbols: Seq<String>) -> Seq<Seq<char>> {
    symbols.map_values(|symbol: String| symbol@)
}

/// One symbol per character of `text`.
pub open spec fn singles(text: Seq<char>) -> Seq<Seq<char>> {
    text.map_values(|c: char| seq![c])
}

/// The default symbols: pad, punctuation, letters and phonetic characters one
/// by one, then the two markers.
pub open spec fn default_symbol_texts() -> Seq<Seq<char>> {
    seq![PAD_SYMBOL@] + singles(PUNCTUATION_SYMBOLS@) + singles(LETTER_SYMBOLS@) + singles(
        IPA_SYMBOLS@,
    ) + seq![START_SYMBOL@, END_SYMBOL@]
}

/// Where each symbol stands in the list; the last occurrence counts.
pub open spec fn symbol_map(symbols: Seq<Seq<char>>) -> Map<Seq<char>, i64>
    decreases symbols.len(),
{
    if symbols.len() == 0 {
        Map::empty()
    } else {
        symbol_map(symbols.drop_last()).insert(symbols.last(), (symbols.len() - 1) as i64)
    }
}

/// The length of the longest symbol of two to `limit` characters that starts
/// `text`, or 0 where there is none.
pub open spec fn longest_match(map: Map<Seq<char>, i64>, text: Seq<char>, limit: nat) -> nat
    decreases limit,
{
    if limit < 2 {
        0
    } else if map.contains_key(text.take(limit as int)) {
        limit
    } else {
        longest_match(map, text, (limit - 1) as nat)
    }
}

/// How many characters the tokenizer consumes at the start of a non-empty text.
pub open spec fn step_len(map: Map<Seq<char>, i64>, text: Seq<char>) -> nat {
    let n = longest_match(map, text, text.len());
    if n > 0 { n } else { 1 }
}

/// The token indexes of `text`.
pub open spec fn tokens(map: Map<Seq<char>, i64>, text: Seq<char>) -> Seq<i64>
    decreases text.len(),
    via tokens_decreases
{
    if text.len() == 0 {
        Seq::empty()
    } else {
        let n = step_len(map, text);
        let symbol = text.take(n as int);
        let rest = tokens(map, text.skip(n as int));
        if map.contains_key(symbol) {
            seq![map[symbol]] + rest
        } else {
            rest
        }
    }
}

#[via_fn]
proof fn tokens_decreases(map: Map<Seq<char>, i64>, text: Seq<char>) {
    if text.len() > 0 {
        lemma_step_bounds(map, text);
    }
}

/// The list of unknown characters after `text`: each one that is dropped and
/// not yet in the list is added once, in order.
pub open spec fn unknown_after(
    known: Seq<char>,
    map: Map<Seq<char>, i64>,
    text: Seq<char>,
) -> Seq<char>
    decreases text.len(),
    via unknown_decreases
{
    if text.len() == 0 {
        known
    } else {
        let n = step_len(map, text);
        let rest = text.skip(n as int);
        if map.contains_key(text.take(n as int)) || known.contains(text[0]) {
            unknown_after(known, map, rest)
        } else {
            unknown_after(known.push(text[0]), map, rest)
        }
    }
}

#[via_fn]
proof fn unknown_decreases(known: Seq<char>, map: Map<Seq<char>, i64>, text: Seq<char>) {
    if text.len() > 0 {
        lemma_step_bounds(map, text);
    }
}

proof fn lemma_longest_match(map: Map<Seq<char>, i64>, text: Seq<char>, limit: nat)
    ensures
        ({
            let n = longest_match(map, text, limit);
            &&& n == 0 || (2 <= n <= limit && map.contains_key(text.take(n as int)))
            &&& forall|k: int|
                #![trigger text.take(k)]
                2 <= k && n < k <= limit ==> !map.contains_key(text.take(k))
        }),
    decreases limit,
{
    if limit >= 2 && !map.contains_key(text.take(limit as int)) {
        lemma_longest_match(map, text, (limit - 1) as nat);
    }
}

proof fn lemma_step_bounds(map: Map<Seq<char>, i64>, text: Seq<char>)
    requires
        text.len() > 0,
    ensures
        1 <= step_len(map, text) <= text.len(),
{
    lemma_longest_match(map, text, text.len());
}

/// The longest match is the longest: every symbol of two or more characters
/// that starts `text` is at most as long, and a match of at least two
/// characters is a symbol.
pub proof fn law_longest_match_wins(symbols: Seq<Seq<char>>, text: Seq<char>, symbol: Seq<char>)
    requires
        symbols.contains(symbol),
        2 <= symbol.len() <= text.len(),
        text.take(symbol.len() as int) == symbol,
    ensures
        step_len(symbol_map(symbols), text) >= symbol.len(),
        symbols.contains(text.take(step_len(symbol_map(symbols), text) as int)),
{
    let map = symbol_map(symbols);
    law_last_occurrence_counts(symbols, symbol);
    lemma_longest_match(map, text, text.len());
    assert(map.contains_key(text.take(symbol.len() as int)));
    law_last_occurrence_counts(symbols, text.take(step_len(map, text) as int));
}

/// The table holds exactly the listed symbols, each with its last position.
pub proof fn law_last_occurrence_counts(symbols: Seq<Seq<char>>, symbol: Seq<char>)
    ensures
        symbol_map(symbols).contains_key(symbol) <==> symbols.contains(symbol),
        symbols.contains(symbol) ==> exists|i: int|
            {
                &&& 0 <= i < symbols.len()
                &&& #[trigger] symbols[i] == symbol
                &&& symbol_map(symbols)[symbol] == i as i64
                &&& forall|j: int| i < j < symbols.len() ==> symbols[j] != symbol
            },
    decreases symbols.len(),
{
    if symbols.len() > 0 {
        let shorter = symbols.drop_last();
        law_last_occurrence_counts(shorter, symbol);
        if symbols.last() == symbol {
            assert(symbols[symbols.len() - 1] == symbol);
        } else if shorter.contains(symbol) {
            let i = choose|i: int|
                {
                    &&& 0 <= i < shorter.len()
                    &&& #[trigger] shorter[i] == symbol
                    &&& symbol_map(shorter)[symbol] == i as i64
                    &&& forall|j: int| i < j < shorter.len() ==> shorter[j] != symbol
                };
            assert(symbols[i] == symbol);
            assert forall|j: int| i < j < symbols.len() implies symbols[j] != symbol by {
                if j < shorter.len() {
                    assert(shorter[j] == symbols[j]);
                }
            }
        } else {
            assert forall|j: int| 0 <= j < symbols.len() implies symbols[j] != symbol by {
                if j < shorter.len() {
                    assert(shorter[j] == symbols[j]);
                    assert(shorter.contains(shorter[j]));
                }
            }
        }
    }
}

/// A character that is no symbol, at a place where no longer symbol starts,
/// leaves no token behind.
pub proof fn law_unknown_characters_are_dropped(map: Map<Seq<char>, i64>, text: Seq<char>)
    requires
        text.len() > 0,
        !map.contains_key(text.take(step_len(map, text) as int)),
    ensures
        step_len(map, text) == 1,
        tokens(map, text) == tokens(map, text.skip(1)),
{
    lemma_longest_match(map, text, text.len());
}

/// A symbol of two or more characters, with its index in the table.
struct LongSymbol {
    chars: Vec<char>,
    index: i64,
}

/// Turns text into token indexes.
pub struct TextCleaner {
    symbol_index: StringHashMap<i64>,
    multichar_symbols: Vec<LongSymbol>,
    chars_logged: Vec<char>,
}

impl TextCleaner {
    /// The symbol table.
    pub closed spec fn map(self) -> Map<Seq<char>, i64> {
        self.symbol_index@
    }

    /// The characters dropped so far, each once, in the order they came.
    pub closed spec fn unknown(self) -> Seq<char> {
        self.chars_logged@
    }

    /// The long symbols are those of the table, longest first.
    pub closed spec fn wf(self) -> bool {
        let long = self.multichar_symbols@;
        &&& forall|i: int|
            0 <= i < long.len() ==> {
                &&& (#[trigger] long[i]).chars@.len() > 1
                &&& self.symbol_index@.contains_key(long[i].chars@)
                &&& self.symbol_index@[long[i].chars@] == long[i].index
            }
        &&& forall|i: int, j: int|
            0 <= i <= j < long.len() ==> (#[trigger] long[i]).chars@.len() >= (
            #[trigger] long[j]).chars@.len()
        &&& forall|symbol: Seq<char>| #[trigger]
            self.symbol_index@.contains_key(symbol) && symbol.len() > 1 ==> Self::lists(
                long,
                symbol,
            )
        &&& self.chars_logged@.no_duplicates()
    }

    spec fn lists(long: Seq<LongSymbol>, symbol: Seq<char>) -> bool {
        exists|i: int| 0 <= i < long.len() && (#[trigger] long[i]).chars@ == symbol
    }

    /// The tokenizer for a list of symbols; a symbol's index is its last position.
    pub fn new(symbols: &[String]) -> (cleaner: Self)
        ensures
            cleaner.wf(),
            cleaner.map() == symbol_map(symbol_texts(symbols@)),
            cleaner.unknown() == Seq::<char>::empty(),
    {
        let ghost texts = symbol_texts(symbols@);
        let mut symbol_index: StringHashMap<i64> = StringHashMap::with_capacity(symbols.len());
        let mut i: usize = 0;
        assert(texts.take(0) =~= Seq::<Seq<char>>::empty());
        while i < symbols.len()
            invariant
                texts == symbol_texts(symbols@),
                i <= symbols@.len(),
                symbol_index@ == symbol_map(texts.take(i as int)),
            decreases symbols@.len() - i,
        {
            symbol_index.insert(symbols[i].clone(), i as i64);
            assert(texts.take(i + 1).drop_last() =~= texts.take(i as int));
            i = i + 1;
        }
        assert(texts.take(i as int) =~= texts);

        let mut cleaner = TextCleaner {
            symbol_index,
            multichar_symbols: Vec::new(),
            chars_logged: Vec::new(),
        };
        let mut k: usize = 0;
        while k < symbols.len()
            invariant
                texts == symbol_texts(symbols@),
                k <= symbols@.len(),
                cleaner.map() == symbol_map(texts),
                cleaner.unknown() == Seq::<char>::empty(),
                cleaner.long_wf(),
                forall|j: int|
                    0 <= j < k && texts[j].len() > 1 ==> Self::lists(
                        cleaner.multichar_symbols@,
                        #[trigger] texts[j],
                    ),
            decreases symbols@.len() - k,
        {
            let chars = chars_of(symbols[k].as_str());
            let found = cleaner.symbol_index.get(symbols[k].as_str());
            assert(texts[k as int] == symbols[k as int]@);
            proof {
                law_last_occurrence_counts(texts, texts[k as int]);
                assert(texts.contains(texts[k as int]));
            }
            if let Some(index) = found {
                let index: i64 = *index;
                cleaner.add_long(chars, index);
            }
            k = k + 1;
        }
        proof {
            assert forall|symbol: Seq<char>| #[trigger]
                cleaner.symbol_index@.contains_key(symbol) && symbol.len() > 1 implies Self::lists(
                cleaner.multichar_symbols@,
                symbol,
            ) by {
                law_last_occurrence_counts(texts, symbol);
                let j = texts.index_of(symbol);
                assert(texts[j] == symbol);
            }
        }
        cleaner
    }

    /// The well-formedness of the long symbols alone.
    spec fn long_wf(self) -> bool {
        let long = self.multichar_symbols@;
        &&& forall|i: int|
            0 <= i < long.len() ==> {
                &&& (#[trigger] long[i]).chars@.len() > 1
                &&& self.symbol_index@.contains_key(long[i].chars@)
                &&& self.symbol_index@[long[i].chars@] == long[i].index
            }
        &&& forall|i: int, j: int|
            0 <= i <= j < long.len() ==> (#[trigger] long[i]).chars@.len() >= (
            #[trigger] long[j]).chars@.len()
    }

    /// Lists a long symbol behind those that are at least as long, unless it is listed.
    fn add_long(&mut self, chars: Vec<char>, index: i64)
        requires
            old(self).long_wf(),
            old(self).map().contains_key(chars@),
            old(self).map()[chars@] == index,
        ensures
            final(self).long_wf(),
            final(self).map() == old(self).map(),
            final(self).unknown() == old(self).unknown(),
            chars@.len() > 1 ==> Self::lists(final(self).multichar_symbols@, chars@),
            forall|symbol: Seq<char>| #[trigger]
                Self::lists(old(self).multichar_symbols@, symbol) ==> Self::lists(
                    final(self).multichar_symbols@,
                    symbol,
                ),
    {
        if chars.len() <= 1 {
            return;
        }
        let ghost before = self.multichar_symbols@;
        let mut at: usize = 0;
        while at < self.multichar_symbols.len() && self.multichar_symbols[at].chars.len()
            >= chars.len()
            invariant
                self.multichar_symbols@ == before,
                self.long_wf(),
                at <= before.len(),
                forall|i: int| 0 <= i < at ==> (#[trigger] before[i]).chars@.len() >= chars@.len(),
                forall|i: int| 0 <= i < at ==> (#[trigger] before[i]).chars@ != chars@,
            decreases before.len() - at,
        {
            if same_chars(&self.multichar_symbols[at].chars, &chars) {
                assert(before[at as int].chars@ == chars@);
                return;
            }
            at = at + 1;
        }
        let entry = LongSymbol { chars, index };
        let ghost inserted = before.insert(at as int, entry);
        self.multichar_symbols.insert(at, entry);
        proof {
            assert(inserted[at as int] == entry);
            assert forall|symbol: Seq<char>| #[trigger] Self::lists(before, symbol) implies Self::lists(
                inserted,
                symbol,
            ) by {
                let i = choose|i: int| 0 <= i < before.len() && (#[trigger] before[i]).chars@ == symbol;
                if i < at {
                    assert(inserted[i] == before[i]);
                } else {
                    assert(inserted[i + 1] == before[i]);
                }
            }
        }
    }

    /// The symbol table.
    pub fn symbol_index(&self) -> (table: &StringHashMap<i64>)
        ensures
            table@ == self.map(),
    {
        &self.symbol_index
    }

    /// The characters dropped so far, each once, in the order they came.
    pub fn unknown_characters(&self) -> (chars: &Vec<char>)
        ensures
            chars@ == self.unknown(),
    {
        &self.chars_logged
    }

    /// The index of the first long symbol that starts `chars[at..]`.
    fn find_long(&self, chars: &Vec<char>, at: usize) -> (found: Option<usize>)
        requires
            self.wf(),
            at < chars@.len(),
        ensures
            ({
                let n = longest_match(
                    self.map(),
                    chars@.skip(at as int),
                    chars@.skip(at as int).len(),
                );
                match found {
                    Some(i) => {
                        &&& i < self.multichar_symbols@.len()
                        &&& self.multichar_symbols@[i as int].chars@ == chars@.skip(
                            at as int,
                        ).take(n as int)
                        &&& n >= 2
                        &&& self.multichar_symbols@[i as int].chars@.len() == n
                    },
                    None => n == 0,
                }
            }),
    {
        let ghost rest = chars@.skip(at as int);
        let ghost n = longest_match(self.map(), rest, rest.len());
        proof {
            lemma_longest_match(self.map(), rest, rest.len());
        }
        let mut i: usize = 0;
        while i < self.multichar_symbols.len()
            invariant
                self.wf(),
                at < chars@.len(),
                rest == chars@.skip(at as int),
                n == longest_match(self.map(), rest, rest.len()),
                i <= self.multichar_symbols@.len(),
                forall|j: int|
                    0 <= j < i ==> !starts((#[trigger] self.multichar_symbols@[j]).chars@, rest),
            decreases self.multichar_symbols@.len() - i,
        {
            if starts_with_at(chars, at, &self.multichar_symbols[i].chars) {
                let ghost found = self.multichar_symbols@[i as int].chars@;
                proof {
                    lemma_longest_match(self.map(), rest, rest.len());
                    assert(rest.take(found.len() as int) == found);
                    assert(n >= found.len());
                    let best = rest.take(n as int);
                    assert(Self::lists(self.multichar_symbols@, best));
                    let j = choose|j: int|
                        0 <= j < self.multichar_symbols@.len() && (
                        #[trigger] self.multichar_symbols@[j]).chars@ == best;
                    assert(starts(best, rest));
                    assert(j >= i);
                    assert(best.len() <= found.len());
                }
                return Some(i);
            }
            i = i + 1;
        }
        proof {
            lemma_longest_match(self.map(), rest, rest.len());
            if n > 0 {
                let best = rest.take(n as int);
                assert(Self::lists(self.multichar_symbols@, best));
                assert(starts(best, rest));
            }
        }
        None
    }

    /// The token indexes of `text`: at each position the longest symbol wins,
    /// and characters that are no symbol are dropped and noted.
    pub fn clean(&mut self, text: &str) -> (indexes: Vec<i64>)
        requires
            old(self).wf(),
        ensures
            final(self).wf(),
            final(self).map() == old(self).map(),
            indexes@ == tokens(old(self).map(), text@),
            final(self).unknown() == unknown_after(old(self).unknown(), old(self).map(), text@),
    {
        let chars = chars_of(text);
        let mut indexes: Vec<i64> = Vec::new();
        let mut position: usize = 0;
        let ghost map = self.map();
        let ghost known = self.unknown();
        assert(chars@.skip(0) =~= text@);
        assert(indexes@ + tokens(map, text@) =~= tokens(map, text@));
        while position < chars.len()
            invariant
                self.wf(),
                self.map() == map,
                chars@ == text@,
                position <= chars@.len(),
                indexes@ + tokens(map, chars@.skip(position as int)) == tokens(map, text@),
                unknown_after(self.unknown(), map, chars@.skip(position as int)) == unknown_after(
                    known,
                    map,
                    text@,
                ),
            decreases chars@.len() - position,
        {
            let ghost rest = chars@.skip(position as int);
            let ghost n = step_len(map, rest);
            proof {
                lemma_longest_match(map, rest, rest.len());
                lemma_step_bounds(map, rest);
                assert(rest.skip(n as int) =~= chars@.skip(position + n));
            }
            if let Some(i) = self.find_long(&chars, position) {
                let index: i64 = self.multichar_symbols[i].index;
                let length: usize = self.multichar_symbols[i].chars.len();
                proof {
                    let tail = tokens(map, rest.skip(n as int));
                    assert(indexes@.push(index) + tail =~= indexes@ + (seq![index] + tail));
                }
                indexes.push(index);
                position = position + length;
            } else {
                let character: char = chars[position];
                let single = one_char(character);
                proof {
                    assert(rest.take(1) =~= seq![character]);
                }
                if let Some(index) = self.symbol_index.get(single.as_str()) {
                    let index: i64 = *index;
                    proof {
                        let tail = tokens(map, rest.skip(n as int));
                        assert(indexes@.push(index) + tail =~= indexes@ + (seq![index] + tail));
                    }
                    indexes.push(index);
                } else {
                    self.note_unknown(character);
                }
                position = position + 1;
            }
        }
        assert(chars@.skip(position as int) =~= Seq::<char>::empty());
        assert(indexes@ + Seq::<i64>::empty() =~= indexes@);
        indexes
    }

    /// Remembers a dropped character, once.
    fn note_unknown(&mut self, character: char)
        requires
            old(self).wf(),
        ensures
            final(self).wf(),
            final(self).map() == old(self).map(),
            final(self).unknown() == if old(self).unknown().contains(character) {
                old(self).unknown()
            } else {
                old(self).unknown().push(character)
            },
    {
        let mut i: usize = 0;
        while i < self.chars_logged.len()
            invariant
                self.wf(),
                *self == *old(self),
                i <= self.chars_logged@.len(),
                forall|j: int| 0 <= j < i ==> self.chars_logged@[j] != character,
            decreases self.chars_logged@.len() - i,
        {
            if self.chars_logged[i] == character {
                assert(self.chars_logged@.contains(character));
                return;
            }
            i = i + 1;
        }
        self.chars_logged.push(character);
    }
}

impl Default for TextCleaner {
    fn default() -> (cleaner: Self)
        ensures
            cleaner.wf(),
            cleaner.map() == symbol_map(default_symbol_texts()),
            cleaner.unknown() == Seq::<char>::empty(),
    {
        let symbols = default_styletts_symbols();
        TextCleaner::new(symbols.as_slice())
    }
}

/// `prefix` starts `text`.
pub open spec fn starts(prefix: Seq<char>, text: Seq<char>) -> bool {
    prefix.len() <= text.len() && text.take(prefix.len() as int) == prefix
}

fn same_chars(a: &Vec<char>, b: &Vec<char>) -> (same: bool)
    ensures
        same == (a@ == b@),
{
    if a.len() != b.len() {
        return false;
    }
    let mut i: usize = 0;
    while i < a.len()
        invariant
            a@.len() == b@.len(),
            i <= a@.len(),
            forall|j: int| 0 <= j < i ==> a@[j] == b@[j],
        decreases a@.len() - i,
    {
        if a[i] != b[i] {
            return false;
        }
        i = i + 1;
    }
    assert(a@ =~= b@);
    true
}

fn starts_with_at(chars: &Vec<char>, at: usize, prefix: &Vec<char>) -> (found: bool)
    requires
        at <= chars@.len(),
    ensures
        found == starts(prefix@, chars@.skip(at as int)),
{
    if prefix.len() > chars.len() - at {
        return false;
    }
    let ghost rest = chars@.skip(at as int);
    let mut i: usize = 0;
    while i < prefix.len()
        invariant
            at + prefix.len() <= chars.len(),
            rest == chars@.skip(at as int),
            i <= prefix@.len(),
            forall|j: int| 0 <= j < i ==> prefix@[j] == rest[j],
        decreases prefix@.len() - i,
    {
        if chars[at + i] != prefix[i] {
            assert(rest.take(prefix@.len() as int)[i as int] != prefix@[i as int]);
            return false;
        }
        i = i + 1;
    }
    assert(rest.take(prefix@.len() as int) =~= prefix@);
    true
}

fn push_singles(symbols: &mut Vec<String>, text: &str)
    ensures
        symbol_texts(final(symbols)@) == symbol_texts(old(symbols)@) + singles(text@),
{
    let chars = chars_of(text);
    let mut i: usize = 0;
    assert(symbol_texts(symbols@) + singles(text@.take(0)) =~= symbol_texts(old(symbols)@));
    while i < chars.len()
        invariant
            chars@ == text@,
            i <= chars@.len(),
            symbol_texts(symbols@) == symbol_texts(old(symbols)@) + singles(text@.take(i as int)),
        decreases chars@.len() - i,
    {
        let symbol = one_char(chars[i]);
        proof {
            assert(symbol_texts(symbols@.push(symbol)) =~= symbol_texts(symbols@).push(symbol@));
            assert(singles(text@.take(i + 1)) =~= singles(text@.take(i as int)).push(
                seq![text@[i as int]],
            ));
        }
        symbols.push(symbol);
        i = i + 1;
    }
    assert(text@.take(i as int) =~= text@);
}

/// The default symbols, in order.
pub fn default_styletts_symbols() -> (symbols: Vec<String>)
    ensures
        symbol_texts(symbols@) == default_symbol_texts(),
{
    let mut symbols: Vec<String> = Vec::new();
    symbols.push(PAD_SYMBOL.to_owned());
    assert(symbol_texts(symbols@) =~= seq![PAD_SYMBOL@]);
    push_singles(&mut symbols, PUNCTUATION_SYMBOLS);
    push_singles(&mut symbols, LETTER_SYMBOLS);
    push_singles(&mut symbols, IPA_SYMBOLS);
    let ghost before = symbols@;
    symbols.push(START_SYMBOL.to_owned());
    symbols.push(END_SYMBOL.to_owned());
    assert(symbol_texts(symbols@) =~= symbol_texts(before) + seq![START_SYMBOL@, END_SYMBOL@]);
    symbols
}

/// The tokens of a text between two boundary tokens.
pub open spec fn tensor(map: Map<Seq<char>, i64>, boundary: i64, text: Seq<char>) -> Seq<i64> {
    seq![boundary] + tokens(map, text) + seq![boundary]
}

/// The tokens of `text` between two boundary tokens.
pub fn text_to_tensor(
    cleaner: &mut TextCleaner,
    boundary_token_id: i64,
    text: &str,
) -> (indexes: Vec<i64>)
    requires
        old(cleaner).wf(),
    ensures
        final(cleaner).wf(),
        final(cleaner).map() == old(cleaner).map(),
        final(cleaner).unknown() == unknown_after(
            old(cleaner).unknown(),
            old(cleaner).map(),
            text@,
        ),
        indexes@ == tensor(old(cleaner).map(), boundary_token_id, text@),
{
    let mut indexes = cleaner.clean(text);
    let ghost inner = indexes@;
    indexes.insert(0, boundary_token_id);
    indexes.push(boundary_token_id);
    assert(indexes@ =~= seq![boundary_token_id] + inner + seq![boundary_token_id]);
    indexes
}

/// The tokens of `text` between two boundary tokens, as little-endian bytes.
pub fn text_to_tensor_bytes(
    cleaner: &mut TextCleaner,
    boundary_token_id: i64,
    text: &str,
) -> (bytes: Vec<u8>)
    requires
        old(cleaner).wf(),
    ensures
        final(cleaner).wf(),
        final(cleaner).map() == old(cleaner).map(),
        final(cleaner).unknown() == unknown_after(
            old(cleaner).unknown(),
            old(cleaner).map(),
            text@,
        ),
        bytes@ == crate::wire::i64s_le(tensor(old(cleaner).map(), boundary_token_id, text@)),
{
    let indexes = text_to_tensor(cleaner, boundary_token_id, text);
    let mut bytes: Vec<u8> = Vec::new();
    let mut i: usize = 0;
    assert(indexes@.take(0) =~= Seq::<i64>::empty());
    while i < indexes.len()
        invariant
            i <= indexes@.len(),
            bytes@ == crate::wire::i64s_le(indexes@.take(i as int)),
        decreases indexes@.len() - i,
    {
        put_i64_le(&mut bytes, indexes[i]);
        assert(indexes@.take(i + 1).drop_last() =~= indexes@.take(i as int));
        i = i + 1;
    }
    assert(indexes@.take(i as int) =~= indexes@);
    bytes
}

/// The index of the pad symbol, or the message that says it is missing.
pub fn boundary_token_id(cleaner: &TextCleaner) -> (id: Result<i64, String>)
    ensures
        match id {
            Ok(index) => cleaner.map().contains_key(PAD_SYMBOL@) && index
                == cleaner.map()[PAD_SYMBOL@],
            Err(message) => !cleaner.map().contains_key(PAD_SYMBOL@) && message@
                == "symbols are missing the pad symbol \"$\""@,
        },
{
    match cleaner.symbol_index().get(PAD_SYMBOL) {
        Some(index) => Ok(*index),
        None => Err("symbols are missing the pad symbol \"$\"".to_owned()),
    }
}

proof fn lemma_piece_taken(symbols: Seq<Seq<char>>, text: Seq<char>, piece: Seq<char>)
    requires
        0 < piece.len() <= text.len(),
        text.take(piece.len() as int) == piece,
        piece.len() > 1 ==> symbols.contains(piece),
        forall|k: int|
            2 <= k && piece.len() < k <= text.len() ==> !symbols.contains(#[trigger] text.take(k)),
    ensures
        step_len(symbol_map(symbols), text) == piece.len(),
        symbol_map(symbols).contains_key(piece) <==> symbols.contains(piece),
{
    let map = symbol_map(symbols);
    lemma_longest_match(map, text, text.len());
    let n = longest_match(map, text, text.len());
    law_last_occurrence_counts(symbols, piece);
    if n >= 2 {
        law_last_occurrence_counts(symbols, text.take(n as int));
    }
    assert(map.contains_key(text.take(piece.len() as int)) <==> symbols.contains(piece));
}

/// A known symbol leaves its token. What is taken at the start of a text is the
/// longest symbol of two or more characters there, or else the first
/// character; where it is listed, the tokens are its last position in the list
/// and then the tokens of the rest.
pub proof fn law_known_symbol_leaves_its_token(
    symbols: Seq<Seq<char>>,
    text: Seq<char>,
    piece: Seq<char>,
    place: int,
)
    requires
        symbols.len() <= i64::MAX,
        0 < piece.len() <= text.len(),
        text.take(piece.len() as int) == piece,
        forall|k: int|
            2 <= k && piece.len() < k <= text.len() ==> !symbols.contains(#[trigger] text.take(k)),
        0 <= place < symbols.len(),
        symbols[place] == piece,
        forall|j: int| place < j < symbols.len() ==> symbols[j] != piece,
    ensures
        tokens(symbol_map(symbols), text).len() == 1 + tokens(
            symbol_map(symbols),
            text.skip(piece.len() as int),
        ).len(),
        tokens(symbol_map(symbols), text)[0] == place,
        tokens(symbol_map(symbols), text).skip(1) == tokens(
            symbol_map(symbols),
            text.skip(piece.len() as int),
        ),
        forall|known: Seq<char>| #[trigger]
            unknown_after(known, symbol_map(symbols), text) == unknown_after(
                known,
                symbol_map(symbols),
                text.skip(piece.len() as int),
            ),
{
    let map = symbol_map(symbols);
    assert(symbols.contains(piece));
    lemma_piece_taken(symbols, text, piece);
    law_last_occurrence_counts(symbols, piece);
    let i = choose|i: int|
        {
            &&& 0 <= i < symbols.len()
            &&& #[trigger] symbols[i] == piece
            &&& map[piece] == i as i64
            &&& forall|j: int| i < j < symbols.len() ==> symbols[j] != piece
        };
    assert(i == place);
    let rest = tokens(map, text.skip(piece.len() as int));
    assert(tokens(map, text) == seq![map[piece]] + rest);
    assert(tokens(map, text).skip(1) =~= rest);
}

/// A character that is not listed, where no longer symbol starts, leaves no
/// token and is noted, once.
pub proof fn law_unlisted_character_is_noted(
    symbols: Seq<Seq<char>>,
    text: Seq<char>,
    known: Seq<char>,
)
    requires
        text.len() > 0,
        !symbols.contains(seq![text[0]]),
        forall|k: int| 2 <= k <= text.len() ==> !symbols.contains(#[trigger] text.take(k)),
    ensures
        tokens(symbol_map(symbols), text) == tokens(symbol_map(symbols), text.skip(1)),
        unknown_after(known, symbol_map(symbols), text) == unknown_after(
            if known.contains(text[0]) {
                known
            } else {
                known.push(text[0])
            },
            symbol_map(symbols),
            text.skip(1),
        ),
{
    assert(text.take(1) =~= seq![text[0]]);
    lemma_piece_taken(symbols, text, text.take(1));
}

/// Nothing comes of an empty text.
pub proof fn law_empty_text(symbols: Seq<Seq<char>>, known: Seq<char>)
    ensures
        tokens(symbol_map(symbols), Seq::<char>::empty()).len() == 0,
        unknown_after(known, symbol_map(symbols), Seq::<char>::empty()) == known,
{
}

/// With symbols of one character only, a text of listed characters has one
/// token per character: the last position of that character in the list.
pub proof fn law_one_token_per_character(symbols: Seq<Seq<char>>, text: Seq<char>)
    requires
        symbols.len() <= i64::MAX,
        forall|j: int| 0 <= j < symbols.len() ==> (#[trigger] symbols[j]).len() == 1,
        forall|i: int| 0 <= i < text.len() ==> symbols.contains(seq![#[trigger] text[i]]),
    ensures
        tokens(symbol_map(symbols), text).len() == text.len(),
        forall|i: int|
            0 <= i < text.len() ==> 0 <= #[trigger] tokens(symbol_map(symbols), text)[i]
                < symbols.len() && symbols[tokens(symbol_map(symbols), text)[i] as int]
                == seq![text[i]],
        forall|i: int, j: int|
            0 <= i < text.len() && #[trigger] tokens(symbol_map(symbols), text)[i] < j
                < symbols.len() ==> #[trigger] symbols[j] != seq![text[i]],
    decreases text.len(),
{
    if text.len() > 0 {
        let map = symbol_map(symbols);
        let piece = text.take(1);
        let rest = text.skip(1);
        assert(piece =~= seq![text[0]]);
        assert(symbols.contains(seq![text[0]]));
        law_last_occurrence_counts(symbols, piece);
        let place = choose|i: int|
            {
                &&& 0 <= i < symbols.len()
                &&& #[trigger] symbols[i] == piece
                &&& map[piece] == i as i64
                &&& forall|j: int| i < j < symbols.len() ==> symbols[j] != piece
            };
        assert forall|k: int| 2 <= k <= text.len() implies !symbols.contains(
            #[trigger] text.take(k),
        ) by {
            if symbols.contains(text.take(k)) {
                let j = symbols.index_of(text.take(k));
                assert(symbols[j].len() == 1);
            }
        }
        law_known_symbol_leaves_its_token(symbols, text, piece, place);
        assert forall|i: int| 0 <= i < rest.len() implies symbols.contains(
            seq![#[trigger] rest[i]],
        ) by {
            assert(rest[i] == text[i + 1]);
        }
        law_one_token_per_character(symbols, rest);
        let all = tokens(map, text);
        let tail = tokens(map, rest);
        assert forall|i: int| 0 <= i < text.len() implies 0 <= #[trigger] all[i] < symbols.len()
            && symbols[all[i] as int] == seq![text[i]] by {
            if i > 0 {
                assert(all.skip(1)[i - 1] == tail[i - 1]);
                assert(rest[i - 1] == text[i]);
            }
        }
        assert forall|i: int, j: int|
            0 <= i < text.len() && #[trigger] all[i] < j < symbols.len() implies #[trigger] symbols[j]
            != seq![text[i]] by {
            if i > 0 {
                assert(all.skip(1)[i - 1] == tail[i - 1]);
                assert(rest[i - 1] == text[i]);
            }
        }
    }
}

/// A text is framed by its boundary token: one in front, one behind, and the
/// tokens of the text between them.
pub proof fn law_text_is_framed(map: Map<Seq<char>, i64>, boundary: i64, text: Seq<char>)
    ensures
        ({
            let framed = tensor(map, boundary, text);
            &&& framed.len() == tokens(map, text).len() + 2
            &&& framed[0] == boundary
            &&& framed.last() == boundary
            &&& framed.subrange(1, framed.len() - 1) == tokens(map, text)
        }),
{
    let framed = tensor(map, boundary, text);
    assert(framed.subrange(1, framed.len() - 1) =~= tokens(map, text));
}

/// The letters of the default table are those of the Latin alphabet, capitals
/// first, in alphabetical order.
pub proof fn law_letters_are_in_order()
    ensures
        LETTER_SYMBOLS@.len() == 52,
        forall|i: int| 0 <= i < 26 ==> #[trigger] LETTER_SYMBOLS@[i] as int == 'A' as int + i,
        forall|i: int| 26 <= i < 52 ==> #[trigger] LETTER_SYMBOLS@[i] as int == 'a' as int + i - 26,
{
    reveal_strlit("ABCDEFGHIJKLMNOPQRSTUVWXYZabcdefghijklmnopqrstuvwxyz");
}

/// The punctuation of the default table.
pub proof fn law_punctuation_in_order()
    ensures
        PUNCTUATION_SYMBOLS@ == seq![
            ';', ':', ',', '.', '!', '?', '¡', '¿', '—', '…', '"', '«', '»', '“', '”', ' ',
        ],
{
    reveal_strlit(";:,.!?¡¿—…\"«»“” ");
    assert(PUNCTUATION_SYMBOLS@ =~= seq![
            ';', ':', ',', '.', '!', '?', '¡', '¿', '—', '…', '"', '«', '»', '“', '”', ' ',
        ]);
}

/// The default table: the pad symbol first, then 16 marks of punctuation, 52
/// letters and 109 phonetic characters, and last the two markers.
pub proof fn law_default_table()
    ensures
        default_symbol_texts().len() == 180,
        default_symbol_texts()[0] == seq!['$'],
        forall|i: int|
            0 <= i < 16 ==> #[trigger] default_symbol_texts()[1 + i] == seq![PUNCTUATION_SYMBOLS@[i]],
        forall|i: int|
            0 <= i < 52 ==> #[trigger] default_symbol_texts()[17 + i] == seq![LETTER_SYMBOLS@[i]],
        forall|i: int|
            0 <= i < 109 ==> #[trigger] default_symbol_texts()[69 + i] == seq![IPA_SYMBOLS@[i]],
        default_symbol_texts()[178] == "<start/>"@,
        default_symbol_texts()[179] == "<end/>"@,
{
    reveal_strlit("$");
    assert(PAD_SYMBOL@ =~= seq!['$']);
    law_letters_are_in_order();
    law_punctuation_in_order();
    lemma_phonetic_count();
}

proof fn lemma_phonetic_count()
    ensures
        IPA_SYMBOLS@.len() == 109,
        forall|i: int| 0 <= i < IPA_SYMBOLS@.len() ==> IPA_SYMBOLS@[i] != '$',
{
    reveal_strlit(
        "ɑɐɒæɓʙβɔɕçɗɖðʤəɘɚɛɜɝɞɟʄɡɠɢʛɦɧħɥʜɨɪʝɭɬɫɮʟɱɯɰŋɳɲɴøɵɸθœɶʘɹɺɾɻʀʁɽʂʃʈʧʉʊʋⱱʌɣɤʍχʎʏʑʐʒʔʡʕʢǀǁǂǃˈˌːˑʼʴʰʱʲʷˠˤ˞↓↑→↗↘'̩'ᵻ",
    );
}

/// With the default table the boundary token, that of the pad symbol, is zero.
pub proof fn law_pad_is_token_zero()
    ensures
        symbol_map(default_symbol_texts()).contains_key("$"@),
        symbol_map(default_symbol_texts())[PAD_SYMBOL@] == 0,
{
    let texts = default_symbol_texts();
    law_default_table();
    lemma_phonetic_count();
    law_letters_are_in_order();
    law_punctuation_in_order();
    reveal_strlit("$");
    reveal_strlit("<start/>");
    reveal_strlit("<end/>");
    assert(PAD_SYMBOL@ =~= seq!['$']);
    assert(texts[0] == PAD_SYMBOL@);
    assert(texts.contains(PAD_SYMBOL@));
    law_last_occurrence_counts(texts, PAD_SYMBOL@);
    assert forall|j: int| 0 < j < texts.len() implies texts[j] != PAD_SYMBOL@ by {
        if j < 17 {
            assert(texts[1 + (j - 1)] == seq![PUNCTUATION_SYMBOLS@[j - 1]]);
            assert(texts[j][0] != '$');
        } else if j < 69 {
            assert(texts[17 + (j - 17)] == seq![LETTER_SYMBOLS@[j - 17]]);
            assert(texts[j][0] != '$');
        } else if j < 178 {
            assert(texts[69 + (j - 69)] == seq![IPA_SYMBOLS@[j - 69]]);
            assert(texts[j][0] != '$');
        } else {
            assert(texts[j].len() > 1);
        }
    }
}

/// The phonetic characters of the default table.
pub proof fn law_phonetic_in_order()
    ensures
        IPA_SYMBOLS@ == seq![
            'ɑ', 'ɐ', 'ɒ', 'æ', 'ɓ', 'ʙ', 'β', 'ɔ', 'ɕ', 'ç', 'ɗ', 'ɖ', 'ð', 'ʤ', 'ə', 'ɘ',
            'ɚ', 'ɛ', 'ɜ', 'ɝ', 'ɞ', 'ɟ', 'ʄ', 'ɡ', 'ɠ', 'ɢ', 'ʛ', 'ɦ', 'ɧ', 'ħ', 'ɥ', 'ʜ',
            'ɨ', 'ɪ', 'ʝ', 'ɭ', 'ɬ', 'ɫ', 'ɮ', 'ʟ', 'ɱ', 'ɯ', 'ɰ', 'ŋ', 'ɳ', 'ɲ', 'ɴ', 'ø',
            'ɵ', 'ɸ', 'θ', 'œ', 'ɶ', 'ʘ', 'ɹ', 'ɺ', 'ɾ', 'ɻ', 'ʀ', 'ʁ', 'ɽ', 'ʂ', 'ʃ', 'ʈ',
            'ʧ', 'ʉ', 'ʊ', 'ʋ', 'ⱱ', 'ʌ', 'ɣ', 'ɤ', 'ʍ', 'χ', 'ʎ', 'ʏ', 'ʑ', 'ʐ', 'ʒ', 'ʔ',
            'ʡ', 'ʕ', 'ʢ', 'ǀ', 'ǁ', 'ǂ', 'ǃ', 'ˈ', 'ˌ', 'ː', 'ˑ', 'ʼ', 'ʴ', 'ʰ', 'ʱ', 'ʲ',
            'ʷ', 'ˠ', 'ˤ', '˞', '↓', '↑', '→', '↗', '↘', '\'', '\u{329}', '\'', 'ᵻ',
        ],
{
    reveal_strlit(
        "ɑɐɒæɓʙβɔɕçɗɖðʤəɘɚɛɜɝɞɟʄɡɠɢʛɦɧħɥʜɨɪʝɭɬɫɮʟɱɯɰŋɳɲɴøɵɸθœɶʘɹɺɾɻʀʁɽʂʃʈʧʉʊʋⱱʌɣɤʍχʎʏʑʐʒʔʡʕʢǀǁǂǃˈˌːˑʼʴʰʱʲʷˠˤ˞↓↑→↗↘'̩'ᵻ",
    );
    assert(IPA_SYMBOLS@ =~= seq![
            'ɑ', 'ɐ', 'ɒ', 'æ', 'ɓ', 'ʙ', 'β', 'ɔ', 'ɕ', 'ç', 'ɗ', 'ɖ', 'ð', 'ʤ', 'ə', 'ɘ',
            'ɚ', 'ɛ', 'ɜ', 'ɝ', 'ɞ', 'ɟ', 'ʄ', 'ɡ', 'ɠ', 'ɢ', 'ʛ', 'ɦ', 'ɧ', 'ħ', 'ɥ', 'ʜ',
            'ɨ', 'ɪ', 'ʝ', 'ɭ', 'ɬ', 'ɫ', 'ɮ', 'ʟ', 'ɱ', 'ɯ', 'ɰ', 'ŋ', 'ɳ', 'ɲ', 'ɴ', 'ø',
            'ɵ', 'ɸ', 'θ', 'œ', 'ɶ', 'ʘ', 'ɹ', 'ɺ', 'ɾ', 'ɻ', 'ʀ', 'ʁ', 'ɽ', 'ʂ', 'ʃ', 'ʈ',
            'ʧ', 'ʉ', 'ʊ', 'ʋ', 'ⱱ', 'ʌ', 'ɣ', 'ɤ', 'ʍ', 'χ', 'ʎ', 'ʏ', 'ʑ', 'ʐ', 'ʒ', 'ʔ',
            'ʡ', 'ʕ', 'ʢ', 'ǀ', 'ǁ', 'ǂ', 'ǃ', 'ˈ', 'ˌ', 'ː', 'ˑ', 'ʼ', 'ʴ', 'ʰ', 'ʱ', 'ʲ',
            'ʷ', 'ˠ', 'ˤ', '˞', '↓', '↑', '→', '↗', '↘', '\'', '\u{329}', '\'', 'ᵻ',
        ]);
}

/// The symbols of a list are those texts, in the order of the list.
pub proof fn law_symbols_are_the_texts(symbols: Seq<String>, i: int)
    requires
        0 <= i < symbols.len(),
    ensures
        symbol_texts(symbols).len() == symbols.len(),
        symbol_texts(symbols)[i] == symbols[i]@,
{
}

} // verus!
