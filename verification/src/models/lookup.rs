//! Outcomes of a lookup by key and the step that follows each.

use vstd::prelude::*;

verus! {

/// What a lookup by a unique key gave.
pub enum Lookup<T> {
    /// The row with the key.
    Found(T),
    /// No row has the key.
    NotFound,
    /// The store could not answer.
    Failed,
}

/// What find-or-create does after the lookup.
pub enum FindOrCreate<T, D> {
    /// The row exists: it is the result, and nothing is written.
    Existing(T),
    /// No row exists: this one is to be inserted, and the inserted row is the result.
    Create(D),
    /// The lookup failed, and so does the operation.
    Failed,
}

/// What an upsert does after the lookup.
pub enum Upsert<D> {
    /// A row exists: the one with this identifier is overwritten in place.
    Update { id: u128, values: D },
    /// No row exists: one is inserted.
    Insert(D),
    /// The lookup failed, and so does the operation.
    Failed,
}

} // verus!
