//! The errors of the library.

use vstd::prelude::*;

verus! {

/// Why a command could not be carried out.
#[derive(Debug, Clone, PartialEq, Eq)]
pub enum ForScoreError {
    ScoreNotFound(String),
    SetlistNotFound(String),
    LibraryNotFound(String),
    ComposerNotFound(String),
    AmbiguousIdentifier(String),
    InvalidKey(String),
    InvalidRating(i32),
    InvalidDifficulty(i32),
    NotInSetlist(i64),
    OutOfOrder,
    IdSpaceExhausted,
    MissingIdColumn,
    DatabaseNotFound,
    Other(String),
}

} // verus!
