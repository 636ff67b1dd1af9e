//! Keywords: the canonical tokens of the index.

use crate::models::lookup::{FindOrCreate, Lookup};
use vstd::prelude::*;

verus! {

/// A canonical token, found again by its spelling.
#[derive(Debug, Clone)]
pub struct Keyword {
    pub id: u128,
    pub keyword: String,
}

/// What is needed to insert a keyword.
#[derive(Debug, Clone)]
pub struct InsertKeywordDao {
    pub keyword: String,
}

impl Keyword {
    /// Finds the keyword with this spelling or asks for its creation: an
    /// existing row is kept as it is, a missing one is created with exactly
    /// this spelling, and a failed lookup fails the operation.
    pub fn find_or_create(found: Lookup<Keyword>, keyword: &str) -> (r: FindOrCreate<
        Keyword,
        InsertKeywordDao,
    >)
        ensures
            match found {
                Lookup::Found(row) => r == FindOrCreate::<Keyword, InsertKeywordDao>::Existing(row),
                Lookup::NotFound => r matches FindOrCreate::Create(dao) && dao.keyword@
                    == keyword@,
                Lookup::Failed => r is Failed,
            },
    {
        match found {
            Lookup::Found(row) => FindOrCreate::Existing(row),
            Lookup::NotFound => FindOrCreate::Create(InsertKeywordDao { keyword: keyword.to_owned() }),
            Lookup::Failed => FindOrCreate::Failed,
        }
    }
}

} // verus!
