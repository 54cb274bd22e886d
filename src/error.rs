//! The kinds of failure that the store reports.

use vstd::prelude::*;

verus! {

/// What went wrong, by kind.
#[derive(Debug, Clone, Copy, PartialEq, Eq, Structural)]
pub enum StoreError {
    /// A driver failed: the log, the cache or the bus.
    Io,
    /// An event with this id is already in the log.
    Conflict(u128),
    /// The document is not an event envelope, or a payload field is missing.
    MalformedEnvelope,
    /// No variant of the event union has this namespace and type.
    UnknownVariant,
    /// Two events read in one merge share an id.
    DuplicateIds,
    /// The configuration is missing or malformed.
    Config,
}

} // verus!
