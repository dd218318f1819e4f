//! The error taxonomy shared by every operation of the core.

use vstd::prelude::*;

verus! {

/// An error surfaced to the caller of the core.
///
/// Absence of a row is never an error: lookups report it as an empty
/// result. Everything else propagates unmodified to the caller; the core
/// performs no retries and no silent recovery.
#[derive(Clone, Copy, Debug, PartialEq, Eq, Structural)]
pub enum ApiError {
    /// A write-once row with the same key already exists.
    Conflict,
    /// A join was attempted into an invite-only room by someone other than
    /// the acting user itself.
    Unauthorized,
    /// A required row or state event does not exist.
    NotFound,
    /// A stored membership value or event payload does not have the
    /// expected shape.
    Serialization,
    /// A projection row references an event that is absent from the event
    /// log.
    ConsistencyViolation,
    /// A connectivity or transactional failure of the underlying store.
    /// The in-memory model never produces it; the storage layer around the
    /// core reports its own failures with it.
    Storage,
}

} // verus!
