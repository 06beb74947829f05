//! Shared value types of the command surface: the error kinds, the tri-state
//! field patch used by updates, and small view helpers.

use vstd::prelude::*;

verus! {

/// The three entities of the store, used to report which kind of row a
/// lookup failed on.
#[derive(Debug, Clone, Copy, PartialEq, Eq, Structural)]
pub enum Entity {
    Board,
    Column,
    Task,
}

/// The error kinds of the command surface.
///
/// `NotInitialized`: a command ran before a store was installed.
/// `NotFound`: a lookup by id found no row of that entity.
/// `InvalidInput`: a supplied due date is not a well-formed RFC 3339 string.
/// `StorageError`: the store cannot accept the row (a missing parent row, or
/// an exhausted id space).
#[derive(Debug, Clone, Copy, PartialEq, Eq, Structural)]
pub enum KanbanError {
    NotInitialized,
    NotFound(Entity, i32),
    InvalidInput,
    StorageError,
}

/// A tri-state request field: leave the stored value alone, clear it, or
/// replace it. Distinguishes "absent" from "present as null", which plain
/// `Option` cannot.
#[derive(Debug, Clone, PartialEq, Eq)]
pub enum Patch<T> {
    Omit,
    Clear,
    Put(T),
}

/// The view of an optional text field.
pub open spec fn opt_view(o: Option<String>) -> Option<Seq<char>> {
    match o {
        Some(s) => Some(s@),
        None => None,
    }
}

/// An explicit copy of an optional text field, equal to the original.
pub fn clone_opt_string(o: &Option<String>) -> (r: Option<String>)
    ensures
        r == *o,
{
    match o {
        Some(s) => Some(s.clone()),
        None => None,
    }
}

} // verus!
