//! A columnar data-file writer and a versioned, transactionally committed
//! table log.
//!
//! The crate has two independent components that a caller uses together:
//!
//! * [`column`] — serializes typed rows into a column-oriented byte layout
//!   with explicit null markers (definition levels) for nullable fields;
//! * [`log`] — keeps the ordered, versioned action history of a table,
//!   offers an atomic, conflict-detecting commit, and reconstructs the
//!   derived table state by folding committed versions in order.

pub mod actions;
mod clock;
pub mod column;
pub mod log;
pub mod schema;
pub mod state;


use vstd::prelude::*;

verus! {

/// The error taxonomy of the whole crate.
///
/// `AlreadyExists`, `AlreadyInitialized`: a precondition on the target
/// location is violated. `NullInRequiredField`, `InvalidActionSet`:
/// malformed input, never retried. `Write`: an I/O failure at the storage
/// boundary. `Conflict`: a concurrent commit won the race for a version
/// number; the caller re-reads and retries. `CorruptLog`: a required
/// version is missing from the contiguous sequence.
#[derive(Clone, Copy, PartialEq, Eq, Structural, Debug)]
pub enum TableError {
    AlreadyExists,
    AlreadyInitialized,
    NullInRequiredField,
    InvalidActionSet,
    Write,
    Conflict,
    CorruptLog,
}

} // verus!
