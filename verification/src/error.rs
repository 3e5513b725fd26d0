//! Error taxonomy for the mirror core.

use vstd::prelude::*;

verus! {

/// Failure while decoding a backend RPC response payload.
///
/// Fatal to the single call that produced the payload, never to the
/// synchronizer as a whole.
#[derive(Clone, Debug, PartialEq, Eq)]
pub enum DecodeError {
    /// A binary field held non-hex characters or an odd number of digits.
    MalformedHex,
    /// A required field was absent from every accepted response shape.
    MissingField(String),
    /// The payload had none of the accepted shapes for the method.
    UnexpectedShape,
}

/// Failure while parsing an inbound transport envelope.
#[derive(Clone, Debug, PartialEq, Eq)]
pub enum FrameError {
    /// The buffer ended before a complete compact-size value or field.
    Truncated,
    /// A compact-size value was not minimally encoded.
    NonCanonical,
    /// The declared body length differs from the bytes that remain.
    LengthMismatch,
    /// The method name was not valid UTF-8.
    Encoding,
}

/// Failure reported by the backend client for a single RPC call.
#[derive(Clone, Debug, PartialEq, Eq)]
pub enum BackendError {
    /// Network-level failure or timeout: transient, retried with backoff.
    Transient,
    /// The backend is still syncing: transient, retried with backoff.
    StillSyncing,
    /// The response payload could not be decoded: fatal to the call.
    Decode(DecodeError),
    /// The backend rejected the request at the application level: not retried.
    Rejected,
}

/// Failure of a store mutation issued by the synchronizer.
#[derive(Clone, Debug, PartialEq, Eq)]
pub enum StoreError {
    /// The block's height neither extends the chain nor matches a stored block.
    NonContiguous,
    /// A different block is already stored at the block's height.
    HashMismatch,
    /// The rollback target is not a block of the stored chain.
    UnknownRollbackTarget,
    /// The treestate does not match a stored block, or its height already
    /// has a recorded treestate.
    InvalidTreestate,
}

/// Failure of a whole synchronization cycle.
#[derive(Clone, Debug, PartialEq, Eq)]
pub enum ReorgError {
    /// No common ancestor was found within the retained rollback depth.
    AncestorNotFound,
}

} // verus!
