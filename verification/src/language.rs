//! English language resources: lowercasing, the stop word list and the stemmer.

use vstd::prelude::*;

verus! {

/// The lowercase form of a text as `str::to_lowercase` gives it.
pub uninterp spec fn lowercase_of(s: Seq<char>) -> Seq<char>;

/// `str::to_lowercase` returns the lowercase equivalent of the text, which
/// depends on the text alone.
pub assume_specification[ str::to_lowercase ](s: &str) -> (lower: String)
    ensures
        lower@ == lowercase_of(s@),
;

/// Whether the word is on the English stop word list of the `stop_words` crate.
pub uninterp spec fn is_english_stop_word(word: Seq<char>) -> bool;

/// The Porter-2 English stem of a word as `rust_stemmers` computes it.
pub uninterp spec fn english_stem(word: Seq<char>) -> Seq<char>;

/// The word occurs in the list.
pub open spec fn listed(list: Seq<String>, word: Seq<char>) -> bool {
    exists|i: int| 0 <= i < list.len() && (#[trigger] list[i])@ == word
}

/// Calls `stop_words::get` for English. The list it returns is fixed, and a
/// word is an English stop word exactly when the list holds it.
#[verifier::external_body]
pub(crate) fn english_stop_words() -> (list: Vec<String>)
    ensures
        forall|word: Seq<char>| #[trigger] is_english_stop_word(word) == listed(list@, word),
{
    stop_words::get(stop_words::LANGUAGE::English)
}

/// Calls `rust_stemmers::Stemmer::stem` on a stemmer created for
/// `Algorithm::English`; the stem depends on the word alone.
#[verifier::external_body]
pub(crate) fn stem_english(word: &str) -> (stem: String)
    ensures
        stem@ == english_stem(word@),
{
    rust_stemmers::Stemmer::create(rust_stemmers::Algorithm::English).stem(word).into_owned()
}

/// Lowercases every text of a list.
pub fn parse_lower(texts: Vec<String>) -> (out: Vec<String>)
    ensures
        out.deep_view() == texts.deep_view().map_values(|t: Seq<char>| lowercase_of(t)),
{
    let mut out: Vec<String> = Vec::new();
    for i in 0..texts.len()
        invariant
            out.len() == i,
            forall|j: int| 0 <= j < i ==> (#[trigger] out[j])@ == lowercase_of(texts[j]@),
    {
        out.push(texts[i].as_str().to_lowercase());
    }
    assert(out.deep_view() =~= texts.deep_view().map_values(|t: Seq<char>| lowercase_of(t)));
    out
}

} // verus!
