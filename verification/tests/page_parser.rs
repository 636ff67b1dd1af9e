use search_engine::language::parse_lower;
use search_engine::numbers::convert_numbers_to_words;
use search_engine::parser::PageParser;
use search_engine::text::{remove_apostrophes, remove_punctuation};

fn get_page_parser() -> PageParser {
    PageParser::new("{\"running\": \"run\", \"mice\": \"mouse\"}").unwrap()
}

fn strings(items: &[&str]) -> Vec<String> {
    items.iter().map(|s| s.to_string()).collect()
}

#[test]
fn can_remove_punctuation() {
    let text = "Hello, World!";
    let text = remove_punctuation(text);
    assert_eq!(text, "Hello World");
}

#[test]
fn can_remove_apostrophes() {
    let text = "Hello's World";
    let text = remove_apostrophes(text);
    assert_eq!(text, "Hellos World");
}

#[test]
fn can_convert_numbers_to_words() {
    let text = "123";
    let text = convert_numbers_to_words(text);
    assert_eq!(text, "one hundred and twenty-three");
}

#[test]
fn can_remove_stopwords() {
    let page_parser = get_page_parser();
    let texts = vec!["the".to_string(), "quick".to_string(), "brown".to_string(), "fox".to_string()];
    let texts = page_parser.remove_stopwords(texts);
    assert_eq!(texts, vec!["quick".to_string(), "brown".to_string(), "fox".to_string()]);
}

#[test]
fn can_stem_word() {
    let page_parser = get_page_parser();
    let word = "running";
    let word = page_parser.stem_word(word);
    assert_eq!(word, "run");
}

#[test]
fn can_lemmatize_word() {
    let page_parser = get_page_parser();
    let word = "running";
    let word = page_parser.lemmatize_word(word);
    assert_eq!(word, "run");
}

#[test]
fn can_parse_lower() {
    let texts = vec!["Hello".to_string(), "World".to_string()];
    let texts = parse_lower(texts);
    assert_eq!(texts, vec!["hello".to_string(), "world".to_string()]);
}

#[test]
fn can_preprocess_text() {
    let texts = vec![
        "Hello, World!".to_string(),
        "The quick brown fox jumps over the lazy dog.".to_string(),
        "123".to_string(),
        "running".to_string(),
        "the".to_string(),
        "quick".to_string(),
        "brown".to_string(),
        "fox".to_string(),
        "jumps".to_string(),
        "over".to_string(),
    ];
    let page_parser = get_page_parser();
    let texts = page_parser.preprocess_text(texts);
    assert_eq!(
        texts,
        vec![
            "quick".to_string(),
            "brown".to_string(),
            "fox".to_string(),
            "jump".to_string(),
            "lazi".to_string(),
            "dog".to_string(),
            "one hundred and twentythre".to_string(),
            "run".to_string(),
            "quick".to_string(),
            "brown".to_string(),
            "fox".to_string(),
            "jump".to_string()
        ]
    );
}

#[test]
fn lemma_lookup_misses_pass_through() {
    let page_parser = get_page_parser();
    assert_eq!(page_parser.lemmatize_word("walked"), "walked");
    assert_eq!(page_parser.lemmatize_word(""), "");
    assert_eq!(page_parser.lemmatize_word("mice"), "mouse");
    assert_eq!(page_parser.preprocess_text(strings(&["mice"])), strings(&["mouse"]));
}

#[test]
fn malformed_lemma_tables_are_refused() {
    assert!(PageParser::new("").is_err());
    assert!(PageParser::new("[1, 2]").is_err());
    assert!(PageParser::new("{\"a\": 1}").is_err());
    assert!(PageParser::new("{}").is_ok());
}
