//! Indexing one page: the requests made to the store and the order they come in.
//!
//! The store is outside this library. Indexing is therefore a machine: it
//! hands out one request at a time, takes the store's reply, and decides what
//! comes next. The caller performs the requests.

use crate::frequency::{
    counts_tokens, lemma_count_within_total, term_frequencies, total_count, TermCount,
};
use crate::models::keyword::InsertKeywordDao;
use crate::models::website::InsertWebsiteDao;
use crate::models::website_keyword_tfidf::InsertWebsiteKeywordTfidfDao;
use crate::models::website_keywords::InsertWebsiteKeywordsDao;
use crate::seed::{parsed_url, AbsoluteUrl, UrlError};
use vstd::prelude::*;

verus! {

/// Where the indexing of a page stands: which reply it waits for.
#[derive(Debug, Clone, Copy, PartialEq, Eq, Structural)]
pub enum Phase {
    /// The website was looked up by its URL.
    FindingWebsite,
    /// The word count of the existing website is being set.
    UpdatingWordCount,
    /// The occurrence rows of the existing website are being deleted.
    ClearingKeywords,
    /// The new website is being inserted.
    InsertingWebsite,
    /// The keyword of the current term is being found or created.
    EnsuringKeyword,
    /// The occurrence row of the current term is being inserted.
    InsertingOccurrence,
    /// The documents that hold the current keyword are being counted.
    CountingOccurrences,
    /// The documents are being counted.
    CountingWebsites,
    /// The index entry of the current term is being written.
    WritingScore,
    /// Every term is indexed.
    Finished,
    /// The page was given up.
    Aborted,
}

/// What the store answered.
#[derive(Debug, Clone, Copy, PartialEq, Eq, Structural)]
pub enum Reply {
    /// The website that was found or inserted.
    Website { id: u128, word_count: i32 },
    /// No row has the key.
    Missing,
    /// The keyword that was found or created.
    Keyword { id: u128 },
    /// The write was made.
    Done,
    /// The number of rows counted.
    Count(i64),
    /// The decimals of the entry could not be formed; nothing was written.
    Unconvertible,
    /// The store failed; nothing was written.
    Failed,
}

/// A request to the store, in terms of plain values.
pub enum Request {
    FindWebsite { url: Seq<char> },
    UpdateWordCount { website_id: u128, word_count: i32 },
    DeleteWebsiteKeywords { website_id: u128 },
    InsertWebsite { url: Seq<char>, word_count: i32 },
    FindOrCreateKeyword { keyword: Seq<char> },
    InsertWebsiteKeywords { values: InsertWebsiteKeywordsDao },
    CountByKeyword { keyword_id: u128 },
    CountWebsites,
    UpsertTfidf { values: InsertWebsiteKeywordTfidfDao },
    Finish,
    Abort,
}

/// A request to the store, as the caller receives it.
#[derive(Debug)]
pub enum Command {
    /// Look the website up by its URL.
    FindWebsite { url: AbsoluteUrl },
    /// Set the word count of a website.
    UpdateWordCount { website_id: u128, word_count: i32 },
    /// Delete every occurrence row of a website.
    DeleteWebsiteKeywords { website_id: u128 },
    /// Insert a website.
    InsertWebsite(InsertWebsiteDao),
    /// Find the keyword with this spelling, or create it.
    FindOrCreateKeyword(InsertKeywordDao),
    /// Insert an occurrence row.
    InsertWebsiteKeywords(InsertWebsiteKeywordsDao),
    /// Count the occurrence rows of a keyword.
    CountByKeyword { keyword_id: u128 },
    /// Count the websites.
    CountWebsites,
    /// Write the index entry of a website and keyword in place.
    UpsertTfidf(InsertWebsiteKeywordTfidfDao),
    /// Nothing more to do: the page is indexed.
    Finish,
    /// Nothing more to do: the page is given up.
    Abort,
}

impl View for Command {
    type V = Request;

    open spec fn view(&self) -> Request {
        match *self {
            Command::FindWebsite { url } => Request::FindWebsite { url: url@ },
            Command::UpdateWordCount { website_id, word_count } => Request::UpdateWordCount {
                website_id,
                word_count,
            },
            Command::DeleteWebsiteKeywords { website_id } => Request::DeleteWebsiteKeywords {
                website_id,
            },
            Command::InsertWebsite(dao) => Request::InsertWebsite {
                url: dao.url@,
                word_count: dao.word_count,
            },
            Command::FindOrCreateKeyword(dao) => Request::FindOrCreateKeyword {
                keyword: dao.keyword@,
            },
            Command::InsertWebsiteKeywords(values) => Request::InsertWebsiteKeywords { values },
            Command::CountByKeyword { keyword_id } => Request::CountByKeyword { keyword_id },
            Command::CountWebsites => Request::CountWebsites,
            Command::UpsertTfidf(values) => Request::UpsertTfidf { values },
            Command::Finish => Request::Finish,
            Command::Abort => Request::Abort,
        }
    }
}

/// The indexing of a page in terms of plain values.
pub struct Progress {
    /// The URL of the page.
    pub url: Seq<char>,
    /// The number of tokens of the page.
    pub word_count: i32,
    /// The terms of the page with their counts.
    pub terms: Seq<TermCount>,
    /// The reply that is awaited.
    pub phase: Phase,
    /// The place of the current term.
    pub position: int,
    /// The identifier of the website, once known.
    pub website_id: u128,
    /// The identifier of the current keyword, once known.
    pub keyword_id: u128,
    /// The number of documents that hold the current keyword, once known.
    pub docs_with_keyword: i64,
    /// The number of documents, once known.
    pub total_docs: i64,
}

impl Progress {
    /// The terms are distinct, each occurs at least once, the counts add up
    /// to the word count, and the current term exists while one is needed.
    pub open spec fn valid(self) -> bool {
        &&& total_count(self.terms) == self.word_count
        &&& forall|i: int| 0 <= i < self.terms.len() ==> (#[trigger] self.terms[i]).count >= 1
        &&& forall|i: int, j: int|
            0 <= i < j < self.terms.len() ==> (#[trigger] self.terms[i]).term@ != (
            #[trigger] self.terms[j]).term@
        &&& 0 <= self.position <= self.terms.len()
        &&& self.in_term() ==> self.position < self.terms.len()
        &&& self.phase == Phase::Finished ==> self.position == self.terms.len()
    }

    /// The machine is at work on a term.
    pub open spec fn in_term(self) -> bool {
        self.phase == Phase::EnsuringKeyword || self.phase == Phase::InsertingOccurrence
            || self.phase == Phase::CountingOccurrences || self.phase == Phase::CountingWebsites
            || self.phase == Phase::WritingScore
    }

    /// The occurrence row of the current term.
    pub open spec fn occurrence(self) -> InsertWebsiteKeywordsDao {
        InsertWebsiteKeywordsDao {
            keyword_id: self.keyword_id,
            website_id: self.website_id,
            frequency: self.terms[self.position].count as i32,
        }
    }

    /// The index entry of the current term, from the counts gathered for it.
    pub open spec fn score(self) -> InsertWebsiteKeywordTfidfDao {
        InsertWebsiteKeywordTfidfDao {
            website_id: self.website_id,
            keyword_id: self.keyword_id,
            frequency: self.terms[self.position].count as i32,
            word_count: self.word_count,
            docs_with_keyword: self.docs_with_keyword,
            total_docs: self.total_docs,
        }
    }

    /// The indexing given up.
    pub open spec fn aborted(self) -> Progress {
        Progress { phase: Phase::Aborted, ..self }
    }

    /// The indexing turned to the term at `position`, or finished where
    /// there is none.
    pub open spec fn at_term(self, position: int) -> Progress {
        if position < self.terms.len() {
            Progress { phase: Phase::EnsuringKeyword, position, ..self }
        } else {
            Progress { phase: Phase::Finished, position, ..self }
        }
    }

    /// The indexing of a page as it starts: the website is looked up.
    pub open spec fn start(url: Seq<char>, word_count: i32, terms: Seq<TermCount>) -> Progress {
        Progress {
            url,
            word_count,
            terms,
            phase: Phase::FindingWebsite,
            position: 0,
            website_id: 0,
            keyword_id: 0,
            docs_with_keyword: 0,
            total_docs: 0,
        }
    }

    /// The request whose reply is awaited.
    pub open spec fn pending(self) -> Request {
        match self.phase {
            Phase::FindingWebsite => Request::FindWebsite { url: self.url },
            Phase::UpdatingWordCount => Request::UpdateWordCount {
                website_id: self.website_id,
                word_count: self.word_count,
            },
            Phase::ClearingKeywords => Request::DeleteWebsiteKeywords {
                website_id: self.website_id,
            },
            Phase::InsertingWebsite => Request::InsertWebsite {
                url: self.url,
                word_count: self.word_count,
            },
            Phase::EnsuringKeyword => Request::FindOrCreateKeyword {
                keyword: self.terms[self.position].term@,
            },
            Phase::InsertingOccurrence => Request::InsertWebsiteKeywords {
                values: self.occurrence(),
            },
            Phase::CountingOccurrences => Request::CountByKeyword { keyword_id: self.keyword_id },
            Phase::CountingWebsites => Request::CountWebsites,
            Phase::WritingScore => Request::UpsertTfidf { values: self.score() },
            Phase::Finished => Request::Finish,
            Phase::Aborted => Request::Abort,
        }
    }

    /// The indexing after a reply. A reply that the phase does not await, a
    /// failure among them, gives the page up; so does nothing else.
    pub open spec fn after(self, reply: Reply) -> Progress {
        match (self.phase, reply) {
            (Phase::FindingWebsite, Reply::Website { id, word_count }) => Progress {
                phase: Phase::UpdatingWordCount,
                website_id: id,
                ..self
            },
            (Phase::FindingWebsite, Reply::Missing) => Progress {
                phase: Phase::InsertingWebsite,
                ..self
            },
            (Phase::UpdatingWordCount, Reply::Done) => Progress {
                phase: Phase::ClearingKeywords,
                ..self
            },
            (Phase::ClearingKeywords, Reply::Done) => self.at_term(0),
            (Phase::InsertingWebsite, Reply::Website { id, word_count }) => Progress {
                website_id: id,
                ..self
            }.at_term(0),
            (Phase::EnsuringKeyword, Reply::Keyword { id }) => Progress {
                phase: Phase::InsertingOccurrence,
                keyword_id: id,
                ..self
            },
            (Phase::InsertingOccurrence, Reply::Done) => Progress {
                phase: Phase::CountingOccurrences,
                ..self
            },
            (Phase::CountingOccurrences, Reply::Count(n)) => Progress {
                phase: Phase::CountingWebsites,
                docs_with_keyword: n,
                ..self
            },
            (Phase::CountingWebsites, Reply::Count(n)) => Progress {
                phase: Phase::WritingScore,
                total_docs: n,
                ..self
            },
            (Phase::WritingScore, Reply::Done) => self.at_term(self.position + 1),
            (Phase::WritingScore, Reply::Unconvertible) => self.at_term(self.position + 1),
            (Phase::Finished, _) => self,
            _ => self.aborted(),
        }
    }
}

/// Every step keeps a valid indexing valid.
pub proof fn lemma_after_is_valid(progress: Progress, reply: Reply)
    requires
        progress.valid(),
    ensures
        progress.after(reply).valid(),
{
}

/// Why the indexing of a page cannot start.
#[derive(Debug, Clone, Copy, PartialEq, Eq, Structural)]
pub enum IndexingError {
    /// The URL of the page is no absolute URL.
    InvalidUrl(UrlError),
    /// The page has more tokens than a word count can hold.
    TooManyTokens,
}

/// The indexing of one page.
pub struct PageIndexing {
    url: AbsoluteUrl,
    word_count: i32,
    terms: Vec<TermCount>,
    phase: Phase,
    position: usize,
    website_id: u128,
    keyword_id: u128,
    docs_with_keyword: i64,
    total_docs: i64,
}

impl View for PageIndexing {
    type V = Progress;

    closed spec fn view(&self) -> Progress {
        Progress {
            url: self.url@,
            word_count: self.word_count,
            terms: self.terms@,
            phase: self.phase,
            position: self.position as int,
            website_id: self.website_id,
            keyword_id: self.keyword_id,
            docs_with_keyword: self.docs_with_keyword,
            total_docs: self.total_docs,
        }
    }
}

impl PageIndexing {
    #[verifier::type_invariant]
    spec fn well_formed(&self) -> bool {
        self@.valid()
    }

    /// Starts the indexing of a page from its URL and its tokens: counts the
    /// terms and asks for the website. A URL that does not parse, or more
    /// tokens than a word count can hold, is refused.
    pub fn begin(page_url: &str, tokens: &Vec<String>) -> (r: Result<
        (PageIndexing, Command),
        IndexingError,
    >)
        ensures
            match r {
                Ok((indexing, command)) => {
                    &&& parsed_url(page_url@) == Ok::<Seq<char>, UrlError>(indexing@.url)
                    &&& tokens.len() <= i32::MAX
                    &&& indexing@ == Progress::start(
                        indexing@.url,
                        tokens.len() as i32,
                        indexing@.terms,
                    )
                    &&& counts_tokens(indexing@.terms, tokens.deep_view())
                    &&& indexing@.valid()
                    &&& command@ == indexing@.pending()
                },
                Err(IndexingError::InvalidUrl(e)) => parsed_url(page_url@) == Err::<
                    Seq<char>,
                    UrlError,
                >(e),
                Err(IndexingError::TooManyTokens) => parsed_url(page_url@) is Ok && tokens.len()
                    > i32::MAX,
            },
    {
        let url = match AbsoluteUrl::parse(page_url) {
            Ok(url) => url,
            Err(e) => {
                return Err(IndexingError::InvalidUrl(e));
            },
        };
        if tokens.len() > i32::MAX as usize {
            return Err(IndexingError::TooManyTokens);
        }
        let terms = term_frequencies(tokens);
        proof {
            crate::frequency::lemma_counted_terms(terms@, tokens.deep_view());
        }
        let indexing = PageIndexing {
            url,
            word_count: tokens.len() as i32,
            terms,
            phase: Phase::FindingWebsite,
            position: 0,
            website_id: 0,
            keyword_id: 0,
            docs_with_keyword: 0,
            total_docs: 0,
        };
        let command = indexing.command();
        Ok((indexing, command))
    }

    /// The phase the indexing is in.
    pub fn phase(&self) -> (phase: Phase)
        ensures
            phase == self@.phase,
    {
        self.phase
    }

    /// The request whose reply is awaited.
    pub fn command(&self) -> (command: Command)
        ensures
            command@ == self@.pending(),
    {
        proof {
            use_type_invariant(self);
        }
        match self.phase {
            Phase::FindingWebsite => Command::FindWebsite { url: self.url.clone() },
            Phase::UpdatingWordCount => Command::UpdateWordCount {
                website_id: self.website_id,
                word_count: self.word_count,
            },
            Phase::ClearingKeywords => Command::DeleteWebsiteKeywords {
                website_id: self.website_id,
            },
            Phase::InsertingWebsite => Command::InsertWebsite(
                InsertWebsiteDao { url: self.url.clone(), word_count: self.word_count },
            ),
            Phase::EnsuringKeyword => Command::FindOrCreateKeyword(
                InsertKeywordDao { keyword: self.terms[self.position].term.clone() },
            ),
            Phase::InsertingOccurrence => Command::InsertWebsiteKeywords(
                InsertWebsiteKeywordsDao {
                    keyword_id: self.keyword_id,
                    website_id: self.website_id,
                    frequency: self.frequency(),
                },
            ),
            Phase::CountingOccurrences => Command::CountByKeyword { keyword_id: self.keyword_id },
            Phase::CountingWebsites => Command::CountWebsites,
            Phase::WritingScore => Command::UpsertTfidf(
                InsertWebsiteKeywordTfidfDao {
                    website_id: self.website_id,
                    keyword_id: self.keyword_id,
                    frequency: self.frequency(),
                    word_count: self.word_count,
                    docs_with_keyword: self.docs_with_keyword,
                    total_docs: self.total_docs,
                },
            ),
            Phase::Finished => Command::Finish,
            Phase::Aborted => Command::Abort,
        }
    }

    /// The count of the current term, which fits a word count.
    fn frequency(&self) -> (frequency: i32)
        requires
            self@.position < self@.terms.len(),
        ensures
            frequency == self@.terms[self@.position].count,
            frequency == self@.terms[self@.position].count as i32,
    {
        proof {
            use_type_invariant(self);
            lemma_count_within_total(self.terms@, self.position as int);
        }
        self.terms[self.position].count as i32
    }

    /// Takes the reply to the pending request and hands out the next one.
    /// A reply that the phase does not await gives the page up.
    pub fn step(self, reply: Reply) -> (out: (PageIndexing, Command))
        ensures
            out.0@ == self@.after(reply),
            out.0@.valid(),
            out.1@ == out.0@.pending(),
    {
        proof {
            use_type_invariant(&self);
            lemma_after_is_valid(self@, reply);
        }
        let next = match (self.phase, reply) {
            (Phase::FindingWebsite, Reply::Website { id, word_count }) => PageIndexing {
                phase: Phase::UpdatingWordCount,
                website_id: id,
                ..self
            },
            (Phase::FindingWebsite, Reply::Missing) => PageIndexing {
                phase: Phase::InsertingWebsite,
                ..self
            },
            (Phase::UpdatingWordCount, Reply::Done) => PageIndexing {
                phase: Phase::ClearingKeywords,
                ..self
            },
            (Phase::ClearingKeywords, Reply::Done) => self.turn_to(0),
            (Phase::InsertingWebsite, Reply::Website { id, word_count }) => PageIndexing {
                website_id: id,
                ..self
            }.turn_to(0),
            (Phase::EnsuringKeyword, Reply::Keyword { id }) => PageIndexing {
                phase: Phase::InsertingOccurrence,
                keyword_id: id,
                ..self
            },
            (Phase::InsertingOccurrence, Reply::Done) => PageIndexing {
                phase: Phase::CountingOccurrences,
                ..self
            },
            (Phase::CountingOccurrences, Reply::Count(n)) => PageIndexing {
                phase: Phase::CountingWebsites,
                docs_with_keyword: n,
                ..self
            },
            (Phase::CountingWebsites, Reply::Count(n)) => PageIndexing {
                phase: Phase::WritingScore,
                total_docs: n,
                ..self
            },
            (Phase::WritingScore, Reply::Done) => {
                assert(self@.in_term() && self.position < self.terms.len());
                let position = self.position + 1;
                self.turn_to(position)
            },
            (Phase::WritingScore, Reply::Unconvertible) => {
                assert(self@.in_term() && self.position < self.terms.len());
                let position = self.position + 1;
                self.turn_to(position)
            },
            (Phase::Finished, _) => self,
            _ => PageIndexing { phase: Phase::Aborted, ..self },
        };
        let command = next.command();
        (next, command)
    }

    /// Turns to the term at `position`, or finishes where there is none.
    fn turn_to(self, position: usize) -> (out: PageIndexing)
        requires
            position <= self@.terms.len(),
            !self@.in_term() || position == self@.position + 1,
            self@.phase != Phase::Finished,
        ensures
            out@ == self@.at_term(position as int),
    {
        proof {
            use_type_invariant(&self);
        }
        if position < self.terms.len() {
            PageIndexing { phase: Phase::EnsuringKeyword, position, ..self }
        } else {
            PageIndexing { phase: Phase::Finished, position, ..self }
        }
    }
}

} // verus!
