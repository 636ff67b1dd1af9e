//! Websites: the crawled documents, found again by their URL.

use crate::models::lookup::{FindOrCreate, Lookup};
use crate::seed::AbsoluteUrl;
use vstd::prelude::*;

verus! {

/// A crawled document.
#[derive(Debug, Clone)]
pub struct Website {
    pub id: u128,
    pub url: String,
    pub word_count: i32,
}

/// What is needed to insert a website.
#[derive(Debug, Clone)]
pub struct InsertWebsiteDao {
    pub url: AbsoluteUrl,
    pub word_count: i32,
}

impl Website {
    /// Finds the website with this URL or asks for its creation: an existing
    /// row is kept as it is, word count included; a missing one is created
    /// with this URL and word count; a failed lookup fails the operation.
    pub fn find_or_create(found: Lookup<Website>, url: AbsoluteUrl, word_count: i32) -> (r:
        FindOrCreate<Website, InsertWebsiteDao>)
        ensures
            match found {
                Lookup::Found(row) => r == FindOrCreate::<Website, InsertWebsiteDao>::Existing(row),
                Lookup::NotFound => r == FindOrCreate::<Website, InsertWebsiteDao>::Create(
                    InsertWebsiteDao { url, word_count },
                ),
                Lookup::Failed => r is Failed,
            },
    {
        match found {
            Lookup::Found(row) => FindOrCreate::Existing(row),
            Lookup::NotFound => FindOrCreate::Create(InsertWebsiteDao { url, word_count }),
            Lookup::Failed => FindOrCreate::Failed,
        }
    }
}

} // verus!
