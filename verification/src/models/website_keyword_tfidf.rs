//! Index entries: the statistics of a keyword in a website.

use crate::models::lookup::{Lookup, Upsert};
use vstd::prelude::*;

verus! {

/// One index entry. The four counts stand for its decimals: `tf` is
/// `frequency`, `idf` is one plus the natural logarithm of
/// `total_docs / docs_with_keyword`, and `tfidf` is
/// `frequency / word_count` times `idf`.
#[derive(Debug, Clone, Copy)]
pub struct WebsiteKeywordTfidf {
    pub id: u128,
    pub website_id: u128,
    pub keyword_id: u128,
    pub frequency: i32,
    pub word_count: i32,
    pub docs_with_keyword: i64,
    pub total_docs: i64,
}

/// What is needed to write an index entry.
#[derive(Debug, Clone, Copy)]
pub struct InsertWebsiteKeywordTfidfDao {
    pub website_id: u128,
    pub keyword_id: u128,
    pub frequency: i32,
    pub word_count: i32,
    pub docs_with_keyword: i64,
    pub total_docs: i64,
}

impl InsertWebsiteKeywordTfidfDao {
    /// The counts give finite decimals with `idf` at least one and `tfidf`
    /// above zero: the keyword occurs in at least one document and in no more
    /// documents than there are, and in this one at least once and no more
    /// often than the document has words.
    pub open spec fn sound(&self) -> bool {
        &&& 1 <= self.docs_with_keyword <= self.total_docs
        &&& 1 <= self.frequency <= self.word_count
    }

    /// Decides whether the counts are sound.
    pub fn is_sound(&self) -> (b: bool)
        ensures
            b == self.sound(),
    {
        1 <= self.docs_with_keyword && self.docs_with_keyword <= self.total_docs && 1
            <= self.frequency && self.frequency <= self.word_count
    }
}

impl WebsiteKeywordTfidf {
    /// Writes the entry of a website and keyword in place: an existing row
    /// keeps its identifier and takes the new values, a missing one is
    /// inserted, and a failed lookup fails the operation.
    pub fn upsert_by_website_keyword(
        found: Lookup<WebsiteKeywordTfidf>,
        values: InsertWebsiteKeywordTfidfDao,
    ) -> (r: Upsert<InsertWebsiteKeywordTfidfDao>)
        ensures
            match found {
                Lookup::Found(row) => r == (Upsert::Update { id: row.id, values }),
                Lookup::NotFound => r == Upsert::Insert(values),
                Lookup::Failed => r is Failed,
            },
    {
        match found {
            Lookup::Found(row) => Upsert::Update { id: row.id, values },
            Lookup::NotFound => Upsert::Insert(values),
            Lookup::Failed => Upsert::Failed,
        }
    }
}

} // verus!
