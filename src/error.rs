use vstd::prelude::*;

verus! {

/// The failure kinds that every fallible operation of the library reports.
#[derive(Clone, Copy, Debug, PartialEq, Eq, Structural)]
pub enum CoreError {
    /// Malformed input: an empty title or a date that is not a calendar date.
    Validation,
    /// A referenced day, ritual, completion record or task does not exist.
    NotFound,
    /// A uniqueness invariant would be broken by a non-idempotent path.
    Conflict,
    /// The store cannot take the write (its identifier space is used up).
    Persistence,
}

} // verus!
