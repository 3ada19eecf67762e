use vstd::prelude::*;

verus! {

/// Errors surfaced by the store and repository.
///
/// `NotFound` reports a delete of an id that is not present in the
/// collection.  `EmptyId` and `DuplicateId` reject an insert that would
/// break the store's invariant that every id is non-empty and unique.
/// `Io` carries a message from the surrounding file handling, which the
/// library itself never produces.
#[derive(Debug)]
pub enum StoreError {
    NotFound { id: String },
    EmptyId,
    DuplicateId { id: String },
    Io { message: String },
}

} // verus!
