//! The normalisation pipeline that turns the text of a page into index tokens.

use crate::html::{element_texts, page_tokens, raw_tokens_of};
use crate::language::{
    english_stem, english_stop_words, is_english_stop_word, listed, lowercase_of, parse_lower,
    stem_english,
};
use crate::lemmatizer::{lemma_table, Lemmatizer, LemmatizerError};
use crate::numbers::{
    cardinal_of, convert_numbers_to_words, expanded, has_sign, lemma_unsigned_parse_is_nonnegative,
    parses_as_i64,
};
use crate::text::{
    cleaned, is_ascii_punctuation, lemma_cleaned_is_without_punctuation, lemma_filter_all_pass,
    lemma_filter_take_next, lemma_map_all_fixed, lemma_punctuation_free_is_fixed, length_in_bounds,
    punctuation_free, remove_apostrophes, remove_punctuation, within_length_bounds,
    without_punctuation,
};
use crate::words::{
    all_words, lemma_all_words_of_words, lemma_all_words_push, split_whitespace, white_space_free,
    words,
};
use vstd::prelude::*;

verus! {

/// What one word becomes before stop words are removed: cleaned of
/// punctuation and apostrophes, dropped when out of the length bounds, and
/// expanded when it denotes an integer.
pub open spec fn prepared(word_list: Seq<Seq<char>>) -> Seq<Seq<char>> {
    word_list.map_values(|w: Seq<char>| cleaned(w)).filter(
        |w: Seq<char>| within_length_bounds(w),
    ).map_values(|w: Seq<char>| expanded(w))
}

/// The first half of the pipeline: lowercase every text, split the results at
/// white space, and prepare each word.
pub open spec fn first_pass(texts: Seq<Seq<char>>) -> Seq<Seq<char>> {
    prepared(all_words(texts.map_values(|t: Seq<char>| lowercase_of(t))))
}

/// A token is a cardinal spelling or holds no ASCII punctuation.
pub open spec fn canonical_shape(token: Seq<char>) -> bool {
    punctuation_free(token) || exists|n: i64| token == #[trigger] cardinal_of(n)
}

/// A text without ASCII punctuation carries no sign, so that it denotes no
/// negative integer and its expansion is a cardinal spelling or itself.
pub proof fn lemma_punctuation_free_expands(s: Seq<char>)
    requires
        punctuation_free(s),
    ensures
        !has_sign(s),
        parses_as_i64(s) matches Some(n) ==> n >= 0,
        canonical_shape(expanded(s)),
{
    if s.len() > 0 {
        assert(!is_ascii_punctuation(s[0]));
    }
    lemma_unsigned_parse_is_nonnegative(s);
    match parses_as_i64(s) {
        Some(n) => {
            assert(expanded(s) == cardinal_of(n));
        },
        None => {},
    }
}

/// Preparing one more word: it adds its expansion where the cleaned word is
/// within the length bounds, and nothing otherwise.
pub proof fn lemma_prepared_push(word_list: Seq<Seq<char>>, w: Seq<char>)
    ensures
        prepared(word_list.push(w)) == if within_length_bounds(cleaned(w)) {
            prepared(word_list).push(expanded(cleaned(w)))
        } else {
            prepared(word_list)
        },
{
    let clean = |w: Seq<char>| cleaned(w);
    let keep = |w: Seq<char>| within_length_bounds(w);
    let expand = |w: Seq<char>| expanded(w);
    assert(word_list.push(w).map_values(clean) =~= word_list.map_values(clean).push(cleaned(w)));
    word_list.map_values(clean).lemma_filter_push(cleaned(w), keep);
    if within_length_bounds(cleaned(w)) {
        assert(word_list.map_values(clean).filter(keep).push(cleaned(w)).map_values(expand)
            =~= word_list.map_values(clean).filter(keep).map_values(expand).push(
            expanded(cleaned(w)),
        ));
    }
}

/// A word as the first half of the pipeline leaves it: within the length
/// bounds and free of punctuation, or the cardinal spelling of an integer
/// that is not negative.
pub open spec fn prepared_shape(token: Seq<char>) -> bool {
    ||| punctuation_free(token) && within_length_bounds(token)
    ||| exists|n: i64| n >= 0 && token == #[trigger] cardinal_of(n)
}

/// Every token that the first half of the pipeline hands on has the
/// prepared shape.
pub proof fn lemma_prepared_tokens(word_list: Seq<Seq<char>>)
    ensures
        forall|i: int|
            0 <= i < prepared(word_list).len() ==> prepared_shape(#[trigger] prepared(word_list)[i]),
    decreases word_list.len(),
{
    if word_list.len() == 0 {
        assert(word_list.map_values(|w: Seq<char>| cleaned(w)) =~= Seq::<Seq<char>>::empty());
        assert(prepared(word_list) =~= Seq::<Seq<char>>::empty());
    } else {
        let head = word_list.drop_last();
        let w = word_list.last();
        lemma_prepared_tokens(head);
        assert(head.push(w) =~= word_list);
        lemma_prepared_push(head, w);
        lemma_cleaned_is_without_punctuation(w);
        lemma_punctuation_free_expands(cleaned(w));
        if within_length_bounds(cleaned(w)) {
            match parses_as_i64(cleaned(w)) {
                Some(n) => {
                    assert(expanded(cleaned(w)) == cardinal_of(n));
                    assert(prepared_shape(expanded(cleaned(w))));
                },
                None => {},
            }
        }
    }
}

/// The texts of a page turned into index tokens by the fixed sequence of
/// steps; it holds the lemma table and the English stop word list.
pub struct PageParser {
    lemmatizer: Lemmatizer,
    stop_words: Vec<String>,
}

impl PageParser {
    #[verifier::type_invariant]
    spec fn well_formed(&self) -> bool {
        forall|word: Seq<char>| #[trigger]
            is_english_stop_word(word) == listed(self.stop_words@, word)
    }

    /// The lemma table of this parser.
    pub closed spec fn lemmas(&self) -> Map<Seq<char>, Seq<char>> {
        self.lemmatizer@
    }

    /// The lemma of a word under this parser's table: the entry for the
    /// word, or the word itself.
    pub open spec fn lemma_of(&self, word: Seq<char>) -> Seq<char> {
        if self.lemmas().contains_key(word) {
            self.lemmas()[word]
        } else {
            word
        }
    }

    /// What a token that survived stop word removal becomes: stemmed,
    /// lemmatised, stripped of punctuation again and expanded again.
    pub open spec fn finished(&self, token: Seq<char>) -> Seq<char> {
        expanded(without_punctuation(self.lemma_of(english_stem(token))))
    }

    /// The whole pipeline on a list of texts.
    pub open spec fn normalized(&self, texts: Seq<Seq<char>>) -> Seq<Seq<char>> {
        first_pass(texts).filter(|t: Seq<char>| !is_english_stop_word(t)).map_values(
            |t: Seq<char>| self.finished(t),
        )
    }

    /// A token that every step of the pipeline leaves as it is: it is its own
    /// lowercase form, one word, free of punctuation, within the length
    /// bounds, no integer and no stop word, and stemming, lemmatising,
    /// stripping and expanding give it back.
    pub open spec fn settled(&self, token: Seq<char>) -> bool {
        &&& lowercase_of(token) == token
        &&& token.len() > 0
        &&& white_space_free(token)
        &&& punctuation_free(token)
        &&& within_length_bounds(token)
        &&& parses_as_i64(token) is None
        &&& !is_english_stop_word(token)
        &&& self.finished(token) == token
    }

    /// Builds a parser from the JSON text of a lemma table, an object that
    /// maps each surface form to its lemma. Any other text is refused.
    pub fn new(lemmatizer_json: &str) -> (r: Result<Self, LemmatizerError>)
        ensures
            match r {
                Ok(parser) => lemma_table(lemmatizer_json@) == Some(parser.lemmas()),
                Err(e) => lemma_table(lemmatizer_json@) is None && e
                    == LemmatizerError::MalformedTable,
            },
    {
        match Lemmatizer::from_json(lemmatizer_json) {
            Ok(lemmatizer) => Ok(PageParser { lemmatizer, stop_words: english_stop_words() }),
            Err(e) => Err(e),
        }
    }

    /// Decides whether a token is an English stop word, by its exact spelling.
    pub fn is_stop_word(&self, token: &String) -> (b: bool)
        ensures
            b == is_english_stop_word(token@),
    {
        proof {
            use_type_invariant(self);
        }
        for i in 0..self.stop_words.len()
            invariant
                self.well_formed(),
                forall|j: int| 0 <= j < i ==> (#[trigger] self.stop_words[j])@ != token@,
        {
            if self.stop_words[i] == *token {
                assert(listed(self.stop_words@, token@));
                return true;
            }
        }
        assert(!listed(self.stop_words@, token@));
        false
    }

    /// Removes the English stop words from a list of tokens and keeps the
    /// others in order.
    pub fn remove_stopwords(&self, texts: Vec<String>) -> (out: Vec<String>)
        ensures
            out.deep_view() == texts.deep_view().filter(
                |t: Seq<char>| !is_english_stop_word(t),
            ),
    {
        let mut out: Vec<String> = Vec::new();
        for i in 0..texts.len()
            invariant
                out.deep_view() == texts.deep_view().take(i as int).filter(
                    |t: Seq<char>| !is_english_stop_word(t),
                ),
        {
            proof {
                lemma_filter_take_next(
                    texts.deep_view(),
                    i as int,
                    |t: Seq<char>| !is_english_stop_word(t),
                );
                assert(texts.deep_view()[i as int] == texts[i as int]@);
            }
            if !self.is_stop_word(&texts[i]) {
                let ghost before = out.deep_view();
                out.push(texts[i].clone());
                assert(out.deep_view() =~= before.push(texts[i as int]@));
            }
        }
        assert(texts.deep_view().take(texts.len() as int) =~= texts.deep_view());
        out
    }

    /// The Porter-2 English stem of a word.
    pub fn stem_word(&self, word: &str) -> (stem: String)
        ensures
            stem@ == english_stem(word@),
    {
        stem_english(word)
    }

    /// The lemma of a word: its entry in the lemma table, or the word itself
    /// where the table has none.
    pub fn lemmatize_word(&self, word: &str) -> (lemma: String)
        ensures
            lemma@ == self.lemma_of(word@),
            !self.lemmas().contains_key(word@) ==> lemma@ == word@,
    {
        self.lemmatizer.lemmatize_word(word)
    }

    /// Parses an HTML page, takes the text below every element, and runs the
    /// pipeline on its raw tokens. A page for which the universal selector
    /// cannot be built is dropped.
    pub fn parse_page(&self, html: &str) -> (r: Option<Vec<String>>)
        ensures
            match r {
                Some(tokens) => element_texts(html@) matches Some(elements) && tokens.deep_view()
                    == self.normalized(raw_tokens_of(elements)),
                None => element_texts(html@) is None,
            },
    {
        match page_tokens(html) {
            Some(raw) => Some(self.preprocess_text(raw)),
            None => None,
        }
    }

    /// Runs the whole pipeline on the texts of a page, in the fixed order:
    /// lowercase, split at white space, strip punctuation and apostrophes,
    /// drop tokens out of the length bounds, expand integers, remove stop
    /// words, stem, lemmatise, strip punctuation again, expand again.
    pub fn preprocess_text(&self, texts: Vec<String>) -> (out: Vec<String>)
        ensures
            out.deep_view() == self.normalized(texts.deep_view()),
            forall|i: int| 0 <= i < out.len() ==> canonical_shape(#[trigger] out[i]@),
    {
        let lowered = parse_lower(texts);
        let first = prepare_all(&lowered);
        let kept = self.remove_stopwords(first);
        let ghost finish = |t: Seq<char>| self.finished(t);
        let mut out: Vec<String> = Vec::new();
        for i in 0..kept.len()
            invariant
                out.len() == i,
                forall|j: int| 0 <= j < i ==> (#[trigger] out[j])@ == self.finished(kept[j]@),
                forall|j: int| 0 <= j < i ==> canonical_shape(#[trigger] out[j]@),
        {
            let stem = self.stem_word(kept[i].as_str());
            let lemma = self.lemmatize_word(stem.as_str());
            let stripped = remove_punctuation(lemma.as_str());
            proof {
                lemma_punctuation_free_expands(stripped@);
            }
            out.push(convert_numbers_to_words(stripped.as_str()));
        }
        assert(out.deep_view() =~= kept.deep_view().map_values(finish));
        out
    }
}

/// The first half of the pipeline changes nothing in a list of settled tokens.
proof fn lemma_settled_tokens_pass_first(parser: PageParser, tokens: Seq<Seq<char>>)
    requires
        forall|i: int| 0 <= i < tokens.len() ==> parser.settled(#[trigger] tokens[i]),
    ensures
        first_pass(tokens) == tokens,
{
    let lower = |t: Seq<char>| lowercase_of(t);
    let clean = |w: Seq<char>| cleaned(w);
    let keep = |w: Seq<char>| within_length_bounds(w);
    let expand = |w: Seq<char>| expanded(w);
    assert forall|i: int| 0 <= i < tokens.len() implies lower(#[trigger] tokens[i])
        == tokens[i] by {
        assert(parser.settled(tokens[i]));
    }
    lemma_map_all_fixed(tokens, lower);
    assert forall|i: int| 0 <= i < tokens.len() implies (#[trigger] tokens[i]).len() > 0
        && white_space_free(tokens[i]) by {
        assert(parser.settled(tokens[i]));
    }
    lemma_all_words_of_words(tokens);
    assert forall|i: int| 0 <= i < tokens.len() implies clean(#[trigger] tokens[i])
        == tokens[i] by {
        assert(parser.settled(tokens[i]));
        lemma_punctuation_free_is_fixed(tokens[i]);
    }
    lemma_map_all_fixed(tokens, clean);
    assert forall|i: int| 0 <= i < tokens.len() implies keep(#[trigger] tokens[i]) by {
        assert(parser.settled(tokens[i]));
    }
    lemma_filter_all_pass(tokens, keep);
    assert forall|i: int| 0 <= i < tokens.len() implies expand(#[trigger] tokens[i])
        == tokens[i] by {
        assert(parser.settled(tokens[i]));
    }
    lemma_map_all_fixed(tokens, expand);
}

/// The pipeline changes nothing in a list of settled tokens.
pub proof fn lemma_settled_tokens_are_kept(parser: PageParser, tokens: Seq<Seq<char>>)
    requires
        forall|i: int| 0 <= i < tokens.len() ==> parser.settled(#[trigger] tokens[i]),
    ensures
        parser.normalized(tokens) == tokens,
{
    let pass = |t: Seq<char>| !is_english_stop_word(t);
    let finish = |t: Seq<char>| parser.finished(t);
    lemma_settled_tokens_pass_first(parser, tokens);
    assert forall|i: int| 0 <= i < tokens.len() implies pass(#[trigger] tokens[i]) by {
        assert(parser.settled(tokens[i]));
    }
    lemma_filter_all_pass(tokens, pass);
    assert forall|i: int| 0 <= i < tokens.len() implies finish(#[trigger] tokens[i])
        == tokens[i] by {
        assert(parser.settled(tokens[i]));
    }
    lemma_map_all_fixed(tokens, finish);
}

/// Running the pipeline on its own output changes nothing where every token
/// of that output is settled.
pub proof fn lemma_normalizing_twice(parser: PageParser, texts: Seq<Seq<char>>)
    requires
        forall|i: int|
            0 <= i < parser.normalized(texts).len() ==> parser.settled(
                #[trigger] parser.normalized(texts)[i],
            ),
    ensures
        parser.normalized(parser.normalized(texts)) == parser.normalized(texts),
{
    lemma_settled_tokens_are_kept(parser, parser.normalized(texts));
}

/// The first half of the pipeline on texts that are already lowercased:
/// split each at white space, then clean, bound and expand each word.
pub fn prepare_all(lowered: &Vec<String>) -> (out: Vec<String>)
    ensures
        out.deep_view() == prepared(all_words(lowered.deep_view())),
{
    let ghost texts = lowered.deep_view();
    let mut out: Vec<String> = Vec::new();
    proof {
        lemma_all_words_of_words(texts.take(0));
    }
    for i in 0..lowered.len()
        invariant
            texts == lowered.deep_view(),
            out.deep_view() == prepared(all_words(texts.take(i as int))),
    {
        let split = split_whitespace(lowered[i].as_str());
        let ghost done = all_words(texts.take(i as int));
        proof {
            assert(texts.take(i + 1) =~= texts.take(i as int).push(lowered[i as int]@));
            lemma_all_words_push(texts.take(i as int), lowered[i as int]@);
            assert(done + split.deep_view().take(0) =~= done);
        }
        for j in 0..split.len()
            invariant
                split.deep_view() == words(lowered[i as int]@),
                out.deep_view() == prepared(done + split.deep_view().take(j as int)),
        {
            proof {
                assert(done + split.deep_view().take(j + 1) =~= (done + split.deep_view().take(
                    j as int,
                )).push(split[j as int]@));
                lemma_prepared_push(done + split.deep_view().take(j as int), split[j as int]@);
                lemma_cleaned_is_without_punctuation(split[j as int]@);
                lemma_punctuation_free_expands(cleaned(split[j as int]@));
            }
            let stripped = remove_punctuation(split[j].as_str());
            let clean = remove_apostrophes(stripped.as_str());
            if length_in_bounds(clean.as_str()) {
                let ghost before = out.deep_view();
                let token = convert_numbers_to_words(clean.as_str());
                out.push(token);
                assert(out.deep_view() =~= before.push(expanded(clean@)));
            }
        }
        assert(split.deep_view().take(split.len() as int) =~= split.deep_view());
    }
    assert(texts.take(lowered.len() as int) =~= texts);
    out
}

} // verus!
