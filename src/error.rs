use vstd::prelude::*;

verus! {

/// Why an operation on the store was rejected.
#[derive(Clone, Copy, Debug, PartialEq, Eq, Structural)]
pub enum StoreError {
    /// The input was malformed: an empty name or symbol, or a negative quantity.
    Validation,
    /// A referenced user or option does not exist.
    NotFound,
    /// Saved data does not describe a valid store.
    StorageRead,
    /// The store cannot take another record: its id space is used up.
    StorageWrite,
}

} // verus!
