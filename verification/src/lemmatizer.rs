//! The word-to-lemma table and the lookup that lemmatises a token.

use std::collections::HashMap;
use vstd::hash_map::StringHashMap;
use vstd::prelude::*;

verus! {

/// The error of `serde_json` for a text it cannot decode.
#[verifier::external_type_specification]
#[verifier::external_body]
pub struct ExJsonError(serde_json::Error);

/// The table that a JSON text denotes when `serde_json` decodes it as an
/// object from strings to strings, or `None` where it is no such object.
pub uninterp spec fn lemma_table(json: Seq<char>) -> Option<Map<Seq<char>, Seq<char>>>;

/// The pairs are the entries of the table: each pair is an entry, and each
/// key of the table occurs in a pair.
pub open spec fn lists_table(
    pairs: Seq<(String, String)>,
    table: Map<Seq<char>, Seq<char>>,
) -> bool {
    &&& forall|i: int|
        0 <= i < pairs.len() ==> table.contains_key((#[trigger] pairs[i]).0@) && table[pairs[i].0@]
            == pairs[i].1@
    &&& forall|key: Seq<char>| #[trigger]
        table.contains_key(key) ==> exists|i: int|
            0 <= i < pairs.len() && (#[trigger] pairs[i]).0@ == key
}

/// Calls `serde_json::from_str` for a map from strings to strings and hands
/// out its entries. It succeeds exactly on the texts that denote a table, and
/// the entries are then those of that table, in no stated order.
#[verifier::external_body]
fn decode_lemma_table(json: &str) -> (r: Result<Vec<(String, String)>, serde_json::Error>)
    ensures
        r is Ok == lemma_table(json@) is Some,
        r matches Ok(pairs) ==> lists_table(pairs@, lemma_table(json@)->0),
{
    let table: HashMap<String, String> = serde_json::from_str(json)?;
    Ok(table.into_iter().collect())
}

/// Why a lemmatizer could not be built.
#[derive(Debug, Clone, Copy, PartialEq, Eq)]
pub enum LemmatizerError {
    /// The text is not a JSON object from strings to strings.
    MalformedTable,
}

/// A table from surface forms to lemmas, fixed once it is loaded.
pub struct Lemmatizer {
    table: StringHashMap<String>,
}

impl View for Lemmatizer {
    type V = Map<Seq<char>, Seq<char>>;

    closed spec fn view(&self) -> Map<Seq<char>, Seq<char>> {
        self.table@.map_values(|lemma: String| lemma@)
    }
}

impl Lemmatizer {
    /// The lemma of a word: its entry in the table, or the word itself where
    /// the table has none.
    pub open spec fn lemma_of(&self, word: Seq<char>) -> Seq<char> {
        if self@.contains_key(word) {
            self@[word]
        } else {
            word
        }
    }

    /// Loads the table from a JSON object that maps each surface form to its
    /// lemma. Any other text is refused.
    pub fn from_json(json: &str) -> (r: Result<Self, LemmatizerError>)
        ensures
            match r {
                Ok(lemmatizer) => lemma_table(json@) == Some(lemmatizer@),
                Err(e) => lemma_table(json@) is None && e == LemmatizerError::MalformedTable,
            },
    {
        match decode_lemma_table(json) {
            Ok(pairs) => {
                let ghost expected = lemma_table(json@)->0;
                let mut table: StringHashMap<String> = StringHashMap::new();
                for i in 0..pairs.len()
                    invariant
                        lists_table(pairs@, expected),
                        forall|j: int|
                            0 <= j < i ==> table@.contains_key((#[trigger] pairs[j]).0@),
                        forall|key: Seq<char>| #[trigger]
                            table@.contains_key(key) ==> expected.contains_key(key)
                                && table@[key]@ == expected[key],
                {
                    table.insert(pairs[i].0.clone(), pairs[i].1.clone());
                }
                let out = Lemmatizer { table };
                assert(out@ =~= expected);
                Ok(out)
            },
            Err(_) => Err(LemmatizerError::MalformedTable),
        }
    }

    /// Looks a word up by its exact spelling and returns its lemma; a word
    /// that the table does not hold comes back unchanged.
    pub fn lemmatize_word(&self, word: &str) -> (lemma: String)
        ensures
            lemma@ == self.lemma_of(word@),
            !self@.contains_key(word@) ==> lemma@ == word@,
    {
        match self.table.get(word) {
            Some(lemma) => lemma.clone(),
            None => word.to_owned(),
        }
    }
}

} // verus!
