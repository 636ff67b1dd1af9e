//! Occurrence rows: how often a keyword occurs in a website.

use vstd::prelude::*;

verus! {

/// One occurrence record: a keyword, a website and the raw count.
#[derive(Debug, Clone, Copy)]
pub struct WebsiteKeywords {
    pub id: u128,
    pub keyword_id: u128,
    pub website_id: u128,
    pub frequency: i32,
}

/// What is needed to insert an occurrence record.
#[derive(Debug, Clone, Copy)]
pub struct InsertWebsiteKeywordsDao {
    pub keyword_id: u128,
    pub website_id: u128,
    pub frequency: i32,
}

} // verus!
