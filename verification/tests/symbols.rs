use tensorlane::symbols::{
    boundary_token_id, default_styletts_symbols, text_to_tensor, text_to_tensor_bytes, TextCleaner,
    END_SYMBOL, PAD_SYMBOL, START_SYMBOL,
};

fn cleaner() -> TextCleaner {
    TextCleaner::default()
}

fn strings(list: &[&str]) -> Vec<String> {
    list.iter().map(|text| text.to_string()).collect()
}

#[test]
fn matches_python_reference() {
    let mut tc = cleaner();
    assert_eq!(tc.clean("hello"), vec![50, 47, 54, 54, 57]);
    assert_eq!(tc.clean("ˈhɛloʊ"), vec![156, 50, 86, 54, 57, 135]);
    assert_eq!(tc.clean("<start/>hi<end/>"), vec![178, 50, 51, 179]);
}

#[test]
fn wraps_in_boundary_tokens() {
    let mut tc = cleaner();
    let boundary = boundary_token_id(&tc).unwrap();
    assert_eq!(boundary, 0);
    assert_eq!(text_to_tensor(&mut tc, boundary, "hi"), vec![0, 50, 51, 0]);
    assert_eq!(text_to_tensor(&mut tc, boundary, ""), vec![0, 0]);
}

#[test]
fn duplicate_symbol_keeps_last_index() {
    let symbols = default_styletts_symbols();
    assert_eq!(symbols.len(), 180);
    let mut tc = cleaner();
    assert_eq!(tc.symbol_index().len(), 179);
    assert_eq!(tc.clean("'"), vec![176]);
}

#[test]
fn longest_match_wins() {
    let mut tc = cleaner();
    assert_eq!(tc.clean("<start/>"), vec![178]);
    assert_eq!(tc.clean("<start/"), vec![61, 62, 43, 60, 62]);
}

#[test]
fn drops_unknown_characters() {
    let mut tc = cleaner();
    assert_eq!(tc.clean("a\u{1f600}b"), vec![43, 44]);
    assert_eq!(tc.clean("\u{1f600}"), Vec::<i64>::new());
}

#[test]
fn does_not_normalize() {
    let mut tc = cleaner();
    assert_eq!(tc.clean("\u{e9}"), Vec::<i64>::new());
    assert_eq!(tc.clean("e\u{301}"), vec![47]);
    // the combining vertical line below IS a symbol
    assert_eq!(tc.clean("n\u{329}"), vec![56, 175]);
}

#[test]
fn default_symbols_begin_and_end_as_documented() {
    let symbols = default_styletts_symbols();
    assert_eq!(symbols[0], PAD_SYMBOL);
    assert_eq!(symbols[1], ";");
    assert_eq!(symbols[178], START_SYMBOL);
    assert_eq!(symbols[179], END_SYMBOL);
}

#[test]
fn longest_of_several_long_symbols_wins_whatever_their_order() {
    let mut tc = TextCleaner::new(&strings(&["a", "ab", "abcd", "abc", "b", "ab"]));
    assert_eq!(tc.clean("abcd"), vec![2]);
    assert_eq!(tc.clean("abcab"), vec![3, 5]);
    assert_eq!(tc.clean("aab"), vec![0, 5]);
    assert_eq!(tc.clean("abb"), vec![5, 4]);
}

#[test]
fn unknown_characters_are_noted_once() {
    let mut tc = TextCleaner::new(&strings(&["a"]));
    assert_eq!(tc.clean("xaxy"), vec![0]);
    assert_eq!(tc.unknown_characters(), &vec!['x', 'y']);
    assert_eq!(tc.clean("yz"), Vec::<i64>::new());
    assert_eq!(tc.unknown_characters(), &vec!['x', 'y', 'z']);
}

#[test]
fn an_empty_symbol_matches_nothing() {
    let mut tc = TextCleaner::new(&strings(&["", "a"]));
    assert_eq!(tc.symbol_index().len(), 2);
    assert_eq!(tc.clean("a"), vec![1]);
}

#[test]
fn missing_pad_symbol_is_an_error() {
    let tc = TextCleaner::new(&strings(&["a"]));
    assert_eq!(
        boundary_token_id(&tc),
        Err("symbols are missing the pad symbol \"$\"".to_string())
    );
}

#[test]
fn tensor_bytes_are_little_endian_tokens() {
    let mut tc = cleaner();
    let bytes = text_to_tensor_bytes(&mut tc, -2, "h");
    let mut expected = vec![254, 255, 255, 255, 255, 255, 255, 255];
    expected.extend([50, 0, 0, 0, 0, 0, 0, 0]);
    expected.extend([254, 255, 255, 255, 255, 255, 255, 255]);
    assert_eq!(bytes, expected);
}
