use search_engine::language::parse_lower;
use search_engine::lemmatizer::{Lemmatizer, LemmatizerError};
use search_engine::numbers::{convert_numbers_to_words, parse_i64};
use search_engine::parser::{prepare_all, PageParser};
use search_engine::text::{ascii_punctuation, length_in_bounds, remove_apostrophes, remove_punctuation};
use search_engine::words::split_whitespace;

fn owned(items: &[&str]) -> Vec<String> {
    items.iter().map(|s| s.to_string()).collect()
}

fn parser() -> PageParser {
    PageParser::new("{\"running\": \"run\", \"gees\": \"goose\", \"fox\": \"fox-es\", \"dog\": \"42\"}").unwrap()
}

#[test]
fn every_ascii_punctuation_mark_is_removed() {
    let marks = "!\"#$%&'()*+,-./:;<=>?@[\\]^_`{|}~";
    assert_eq!(marks.chars().count(), 32);
    assert!(marks.chars().all(ascii_punctuation));
    assert_eq!(remove_punctuation(marks), "");
    assert_eq!(remove_punctuation("a!b\"c#d$e%f&g'h(i)j*k+l,m-n.o/p:q;r<s=t>u?v@w[x\\y]z^0_1`2{3|4}5~6"),
        "abcdefghijklmnopqrstuvwxyz0123456");
    assert!(!ascii_punctuation('a') && !ascii_punctuation('0') && !ascii_punctuation(' '));
    assert!(!ascii_punctuation('\u{7f}') && !ascii_punctuation('\u{2019}'));
}

#[test]
fn other_characters_stay_in_order() {
    assert_eq!(remove_punctuation(""), "");
    assert_eq!(remove_punctuation("a\u{2013}b \u{201c}c\u{201d} \u{e9}t\u{e9}"), "a\u{2013}b \u{201c}c\u{201d} \u{e9}t\u{e9}");
    assert_eq!(remove_apostrophes("'a'b'"), "ab");
    assert_eq!(remove_apostrophes("it\u{2019}s a-b"), "it\u{2019}s a-b");
    assert_eq!(remove_apostrophes(&remove_punctuation("don't stop")), remove_punctuation("don't stop"));
}

#[test]
fn length_bounds_are_measured_in_bytes() {
    assert!(!length_in_bounds(""));
    assert!(!length_in_bounds("a"));
    assert!(length_in_bounds("ab"));
    assert!(length_in_bounds("\u{e9}"));
    assert!(length_in_bounds(&"a".repeat(49)));
    assert!(!length_in_bounds(&"a".repeat(50)));
    assert!(length_in_bounds(&"\u{e9}".repeat(24)));
    assert!(!length_in_bounds(&"\u{e9}".repeat(25)));
}

#[test]
fn text_is_split_at_any_run_of_white_space() {
    assert_eq!(split_whitespace("  a\tb\n c\u{a0}d\u{3000}e "), owned(&["a", "b", "c", "d", "e"]));
    assert_eq!(split_whitespace("The quick  brown"), owned(&["The", "quick", "brown"]));
    assert_eq!(split_whitespace("one"), owned(&["one"]));
    assert!(split_whitespace("").is_empty());
    assert!(split_whitespace(" \t\r\n").is_empty());
    assert_eq!(split_whitespace("a\u{200b}b"), owned(&["a\u{200b}b"]));
}

#[test]
fn integers_are_read_with_an_optional_sign() {
    assert_eq!(parse_i64("0"), Some(0));
    assert_eq!(parse_i64("-0"), Some(0));
    assert_eq!(parse_i64("+12"), Some(12));
    assert_eq!(parse_i64("-12"), Some(-12));
    assert_eq!(parse_i64("007"), Some(7));
    assert_eq!(parse_i64("9223372036854775807"), Some(i64::MAX));
    assert_eq!(parse_i64("-9223372036854775808"), Some(i64::MIN));
    assert_eq!(parse_i64("00000000000000000000000000000000000000000000012"), Some(12));
}

#[test]
fn other_tokens_are_no_integers() {
    for text in ["", "-", "+", "--1", "+-1", "1-", "12a", "a12", " 1", "1 ", "1_000", "1.5", "\u{ff11}\u{ff12}",
        "9223372036854775808", "-9223372036854775809", "99999999999999999999999999999999999999999"] {
        assert_eq!(parse_i64(text), None, "{:?}", text);
        assert_eq!(parse_i64(text), text.parse::<i64>().ok(), "{:?}", text);
    }
    for text in ["0", "-0", "+12", "007", "9223372036854775807", "-9223372036854775808"] {
        assert_eq!(parse_i64(text), text.parse::<i64>().ok(), "{:?}", text);
    }
}

#[test]
fn integers_are_spelled_and_other_tokens_kept() {
    assert_eq!(convert_numbers_to_words("0"), "zero");
    assert_eq!(convert_numbers_to_words("21"), "twenty-one");
    assert_eq!(convert_numbers_to_words("-5"), "minus five");
    assert_eq!(convert_numbers_to_words("+1000"), "one thousand");
    assert_eq!(convert_numbers_to_words("12345"), "twelve thousand three hundred and forty-five");
    assert_eq!(convert_numbers_to_words("9223372036854775807"),
        "nine quintillion two hundred and twenty-three quadrillion three hundred and seventy-two trillion thirty-six billion eight hundred and fifty-four million seven hundred and seventy-five thousand eight hundred and seven");
    assert_eq!(convert_numbers_to_words("fox"), "fox");
    assert_eq!(convert_numbers_to_words(""), "");
    assert_eq!(convert_numbers_to_words("9223372036854775808"), "9223372036854775808");
    assert_eq!(convert_numbers_to_words("12a"), "12a");
}

#[test]
fn lowercasing_reaches_beyond_ascii() {
    assert_eq!(parse_lower(owned(&["\u{c9}T\u{c9}", "STRASSE", "already", ""])), owned(&["\u{e9}t\u{e9}", "strasse", "already", ""]));
    assert!(parse_lower(Vec::new()).is_empty());
}

#[test]
fn the_first_half_cleans_bounds_and_expands() {
    let lowered = owned(&["it's a fox-trot, no?", "x", "42 --", &"z".repeat(50), "'tis"]);
    assert_eq!(prepare_all(&lowered), owned(&["its", "foxtrot", "no", "forty-two", "tis"]));
}

#[test]
fn stop_words_are_matched_by_their_exact_spelling() {
    let parser = parser();
    assert!(parser.is_stop_word(&"the".to_string()));
    assert!(parser.is_stop_word(&"hello".to_string()));
    assert!(parser.is_stop_word(&"zero".to_string()));
    assert!(!parser.is_stop_word(&"The".to_string()));
    assert!(!parser.is_stop_word(&"quick".to_string()));
    assert!(!parser.is_stop_word(&"".to_string()));
    assert_eq!(parser.remove_stopwords(owned(&["a", "fox", "and", "a", "dog", "the"])), owned(&["fox", "dog"]));
    assert!(parser.remove_stopwords(Vec::new()).is_empty());
}

#[test]
fn stems_are_those_of_the_english_stemmer() {
    let parser = parser();
    assert_eq!(parser.stem_word("jumps"), "jump");
    assert_eq!(parser.stem_word("lazy"), "lazi");
    assert_eq!(parser.stem_word("fruitlessly"), "fruitless");
    assert_eq!(parser.stem_word("one hundred and twenty-three"), "one hundred and twenty-thre");
    assert_eq!(parser.stem_word(""), "");
    assert_eq!(parser.stem_word("\u{e9}t\u{e9}s"), "\u{e9}t\u{e9}s");
    assert_eq!(parser.stem_word("caf\u{e9}s"), "caf\u{e9}");
    assert_eq!(parser.stem_word("\u{65e5}\u{672c}\u{8a9e}"), "\u{65e5}\u{672c}\u{8a9e}");
    assert_eq!(parser.stem_word("\u{1f600}ing"), "\u{1f600}ing");
}

#[test]
fn the_second_half_strips_and_expands_what_the_lemma_brings() {
    let parser = parser();
    // The lemma of "fox" holds a hyphen and that of "dog" is a number.
    assert_eq!(parser.preprocess_text(owned(&["Fox", "DOG", "geese"])), owned(&["foxes", "forty-two", "goose"]));
}

#[test]
fn tokens_hold_no_punctuation_unless_they_are_spelled_numbers() {
    let parser = parser();
    let out = parser.preprocess_text(owned(&["O'Neil's co-op: 1,000 visitors (approx.) & 77 dogs!", "e-mail@example.com"]));
    assert_eq!(out, owned(&["oneil", "coop", "one thousand", "visitor", "approx", "seventyseven", "forty-two", "emailexamplecom"]));
    for token in out.iter() {
        let spelled = token.contains(' ') || token.contains('-');
        assert!(spelled || !token.chars().any(|c| c.is_ascii_punctuation()), "{:?}", token);
    }
}

#[test]
fn settled_tokens_pass_the_pipeline_unchanged() {
    let parser = parser();
    let once = parser.preprocess_text(owned(&["The quick brown fox jumps over the lazy cat."]));
    assert_eq!(once, owned(&["quick", "brown", "foxes", "jump", "lazi", "cat"]));
    let settled = owned(&["quick", "brown", "jump", "lazi", "cat"]);
    assert_eq!(parser.preprocess_text(settled.clone()), settled);
    assert_eq!(parser.preprocess_text(parser.preprocess_text(settled.clone())), parser.preprocess_text(settled));
}

#[test]
fn a_spelled_number_is_split_when_it_is_normalised_again() {
    let parser = parser();
    let once = parser.preprocess_text(owned(&["123"]));
    assert_eq!(once, owned(&["one hundred and twentythre"]));
    assert_eq!(parser.preprocess_text(once), owned(&["twentythr"]));
}

#[test]
fn the_lemma_table_is_read_from_a_json_object() {
    let lemmatizer = Lemmatizer::from_json("{\"running\": \"run\", \"ran\": \"run\", \"\": \"nothing\"}").unwrap();
    assert_eq!(lemmatizer.lemmatize_word("running"), "run");
    assert_eq!(lemmatizer.lemmatize_word("ran"), "run");
    assert_eq!(lemmatizer.lemmatize_word(""), "nothing");
    assert_eq!(lemmatizer.lemmatize_word("run"), "run");
    assert_eq!(lemmatizer.lemmatize_word("Running"), "Running");
    assert_eq!(Lemmatizer::from_json("{}").unwrap().lemmatize_word("running"), "running");
    assert_eq!(Lemmatizer::from_json("{\"a\": \"b\", \"a\": \"c\"}").unwrap().lemmatize_word("a"), "c");
    for text in ["", "null", "[]", "{\"a\": 1}", "{\"a\": \"b\"", "{\"a\": [\"b\"]}", "\"a\""] {
        assert_eq!(Lemmatizer::from_json(text).err(), Some(LemmatizerError::MalformedTable), "{:?}", text);
    }
}
