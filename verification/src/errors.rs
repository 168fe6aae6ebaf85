//! The error taxonomy shared by the storage engine and the consensus layer.

use vstd::prelude::*;

verus! {

/// Every way a storage or consensus operation can fail.
///
/// `ValueDeleted` is distinct from `ValueNotFound` so that callers can render
/// "deleted" differently from "never existed".  `IOError` and
/// `FailedToObtainMainLog` belong to the process edge (real file or lock
/// failures); the in-memory engine itself never returns them, except that a
/// leader answers a write with `IOError` once the logical index space is
/// exhausted.
#[derive(Debug, Clone, Copy, PartialEq, Eq, Structural)]
pub enum NullDbReadError {
    /// The key is absent from the main segment and every sealed segment.
    ValueNotFound,
    /// The most recent record for the key is a tombstone.
    ValueDeleted,
    /// A file-system failure at the process edge.
    IOError,
    /// A line failed to decode, or a sealed segment was missing its index.
    Corrupted,
    /// A write or read was sent to a node that is not the leader.
    NotLeader,
    /// An internal guard on the main segment could not be acquired.
    FailedToObtainMainLog,
    /// The leader stored the entry locally but a majority of the cluster
    /// did not acknowledge it.
    FailedToReplicate,
}

impl NullDbReadError {
    /// A short human-readable name for the error.
    pub fn describe(&self) -> (r: &'static str)
        ensures
            r@ == self.describe_spec(),
    {
        match self {
            NullDbReadError::ValueNotFound => "value not found",
            NullDbReadError::ValueDeleted => "value deleted",
            NullDbReadError::IOError => "io error",
            NullDbReadError::Corrupted => "corrupted",
            NullDbReadError::NotLeader => "not leader",
            NullDbReadError::FailedToObtainMainLog => "failed to obtain main log",
            NullDbReadError::FailedToReplicate => "failed to replicate",
        }
    }

    /// What `describe` returns, as a sequence of characters.
    pub open spec fn describe_spec(&self) -> Seq<char> {
        match self {
            NullDbReadError::ValueNotFound => "value not found"@,
            NullDbReadError::ValueDeleted => "value deleted"@,
            NullDbReadError::IOError => "io error"@,
            NullDbReadError::Corrupted => "corrupted"@,
            NullDbReadError::NotLeader => "not leader"@,
            NullDbReadError::FailedToObtainMainLog => "failed to obtain main log"@,
            NullDbReadError::FailedToReplicate => "failed to replicate"@,
        }
    }
}

} // verus!
