//! A model of the four tables and of what the store answers to each request.
//!
//! The store itself is outside this library. What is proved of the indexing
//! of a page is proved of every store that answers as this model says.

use crate::indexer::{Reply, Request};
use crate::models::website_keyword_tfidf::InsertWebsiteKeywordTfidfDao;
use crate::models::website_keywords::InsertWebsiteKeywordsDao;
use vstd::prelude::*;

verus! {

/// A website row in terms of plain values.
pub struct WebsiteRow {
    pub id: u128,
    pub url: Seq<char>,
    pub word_count: i32,
}

/// A keyword row in terms of plain values.
pub struct KeywordRow {
    pub id: u128,
    pub keyword: Seq<char>,
}

/// The four tables.
pub struct Store {
    pub websites: Seq<WebsiteRow>,
    pub keywords: Seq<KeywordRow>,
    pub occurrences: Seq<InsertWebsiteKeywordsDao>,
    pub scores: Seq<InsertWebsiteKeywordTfidfDao>,
}

/// The sum of the frequencies of the occurrence rows of a website.
pub open spec fn frequency_sum(rows: Seq<InsertWebsiteKeywordsDao>, website_id: u128) -> int
    decreases rows.len(),
{
    if rows.len() == 0 {
        0
    } else {
        frequency_sum(rows.drop_last(), website_id) + if rows.last().website_id == website_id {
            rows.last().frequency as int
        } else {
            0
        }
    }
}

/// The place of the first index entry of a website and keyword, or the
/// number of entries where there is none.
pub open spec fn first_score(
    scores: Seq<InsertWebsiteKeywordTfidfDao>,
    website_id: u128,
    keyword_id: u128,
) -> int
    decreases scores.len(),
{
    if scores.len() == 0 {
        0
    } else if scores.first().website_id == website_id && scores.first().keyword_id == keyword_id {
        0
    } else {
        1 + first_score(scores.drop_first(), website_id, keyword_id)
    }
}

/// The index entries after an upsert: the first entry of the website and
/// keyword takes the new values, or the values are added where there is none.
pub open spec fn upserted(
    scores: Seq<InsertWebsiteKeywordTfidfDao>,
    values: InsertWebsiteKeywordTfidfDao,
) -> Seq<InsertWebsiteKeywordTfidfDao> {
    let place = first_score(scores, values.website_id, values.keyword_id);
    if place < scores.len() {
        scores.update(place, values)
    } else {
        scores.push(values)
    }
}

impl Store {
    /// Some website has this identifier.
    pub open spec fn has_website(self, id: u128) -> bool {
        exists|i: int| 0 <= i < self.websites.len() && (#[trigger] self.websites[i]).id == id
    }

    /// Some keyword has this identifier.
    pub open spec fn has_keyword(self, id: u128) -> bool {
        exists|i: int| 0 <= i < self.keywords.len() && (#[trigger] self.keywords[i]).id == id
    }

    /// Some website has this URL.
    pub open spec fn has_url(self, url: Seq<char>) -> bool {
        exists|i: int| 0 <= i < self.websites.len() && (#[trigger] self.websites[i]).url == url
    }

    /// Some keyword has this spelling.
    pub open spec fn has_spelling(self, keyword: Seq<char>) -> bool {
        exists|i: int|
            0 <= i < self.keywords.len() && (#[trigger] self.keywords[i]).keyword == keyword
    }

    /// The number of occurrence rows of a website and keyword.
    pub open spec fn pair_rows(self, website_id: u128, keyword_id: u128) -> nat {
        self.occurrences.filter(
            |o: InsertWebsiteKeywordsDao| o.website_id == website_id && o.keyword_id == keyword_id,
        ).len()
    }

    /// The number of index entries of a website and keyword.
    pub open spec fn score_rows(self, website_id: u128, keyword_id: u128) -> nat {
        self.scores.filter(
            |s: InsertWebsiteKeywordTfidfDao|
                s.website_id == website_id && s.keyword_id == keyword_id,
        ).len()
    }

    /// The number of occurrence rows of a keyword: the documents that hold it.
    pub open spec fn docs_with_keyword(self, keyword_id: u128) -> nat {
        self.occurrences.filter(|o: InsertWebsiteKeywordsDao| o.keyword_id == keyword_id).len()
    }

    /// The tables at rest: no two websites share an identifier or a URL, no
    /// two keywords an identifier or a spelling; a website and keyword have at
    /// most one occurrence row and at most one index entry; and every
    /// occurrence row refers to a website and a keyword that exist.
    pub open spec fn consistent(self) -> bool {
        &&& forall|i: int, j: int|
            0 <= i < j < self.websites.len() ==> (#[trigger] self.websites[i]).id != (
            #[trigger] self.websites[j]).id && self.websites[i].url != self.websites[j].url
        &&& forall|i: int, j: int|
            0 <= i < j < self.keywords.len() ==> (#[trigger] self.keywords[i]).id != (
            #[trigger] self.keywords[j]).id && self.keywords[i].keyword
                != self.keywords[j].keyword
        &&& forall|w: u128, k: u128| #[trigger] self.pair_rows(w, k) <= 1
        &&& forall|w: u128, k: u128| #[trigger] self.score_rows(w, k) <= 1
        &&& forall|o: InsertWebsiteKeywordsDao| #[trigger]
            self.occurrences.contains(o) ==> self.has_website(o.website_id) && self.has_keyword(
                o.keyword_id,
            )
    }

    /// The store after the word count of a website is set.
    pub open spec fn with_word_count(self, website_id: u128, word_count: i32) -> Store {
        Store {
            websites: self.websites.map_values(
                |w: WebsiteRow|
                    if w.id == website_id {
                        WebsiteRow { word_count, ..w }
                    } else {
                        w
                    },
            ),
            ..self
        }
    }

    /// The store after the occurrence rows of a website are deleted.
    pub open spec fn without_occurrences_of(self, website_id: u128) -> Store {
        Store {
            occurrences: self.occurrences.filter(
                |o: InsertWebsiteKeywordsDao| o.website_id != website_id,
            ),
            ..self
        }
    }

    /// What the store may answer to a request, and what it holds afterwards.
    /// A failed request changes nothing. Identifiers of new rows are new;
    /// a URL or a spelling is inserted only where no row has it; an
    /// occurrence row is inserted only for a website and a keyword that exist.
    pub open spec fn answers(self, request: Request, reply: Reply, after: Store) -> bool {
        if reply == Reply::Failed {
            after == self
        } else {
            match request {
                Request::FindWebsite { url } => after == self && match reply {
                    Reply::Website { id, word_count } => self.websites.contains(
                        WebsiteRow { id, url, word_count },
                    ),
                    Reply::Missing => !self.has_url(url),
                    _ => false,
                },
                Request::UpdateWordCount { website_id, word_count } => reply == Reply::Done
                    && after == self.with_word_count(website_id, word_count),
                Request::DeleteWebsiteKeywords { website_id } => reply == Reply::Done && after
                    == self.without_occurrences_of(website_id),
                Request::InsertWebsite { url, word_count } => reply == (Reply::Website {
                    id: reply->Website_id,
                    word_count,
                }) && !self.has_website(reply->Website_id) && !self.has_url(url) && after == (Store {
                    websites: self.websites.push(
                        WebsiteRow { id: reply->Website_id, url, word_count },
                    ),
                    ..self
                }),
                Request::FindOrCreateKeyword { keyword } => reply is Keyword && {
                    let row = KeywordRow { id: reply->Keyword_id, keyword };
                    ||| after == self && self.keywords.contains(row)
                    ||| !self.has_spelling(keyword) && !self.has_keyword(row.id) && after == (Store {
                        keywords: self.keywords.push(row),
                        ..self
                    })
                },
                Request::InsertWebsiteKeywords { values } => reply == Reply::Done
                    && self.has_website(values.website_id) && self.has_keyword(values.keyword_id)
                    && after == (Store { occurrences: self.occurrences.push(values), ..self }),
                Request::CountByKeyword { keyword_id } => after == self && reply is Count
                    && reply->Count_0 == self.docs_with_keyword(keyword_id),
                Request::CountWebsites => after == self && reply is Count && reply->Count_0
                    == self.websites.len(),
                Request::UpsertTfidf { values } => {
                    ||| reply == Reply::Unconvertible && after == self
                    ||| reply == Reply::Done && after == (Store {
                        scores: upserted(self.scores, values),
                        ..self
                    })
                },
                Request::Finish => after == self,
                Request::Abort => after == self,
            }
        }
    }
}

} // verus!
