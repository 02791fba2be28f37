use vstd::prelude::*;

verus! {

/// Failures of the content-addressed store adapter: the block device and the
/// single external root pointer.
#[derive(Clone, Copy, Debug, PartialEq, Eq, Structural)]
pub enum StoreError {
    /// The host has no root registered yet.
    RootUnavailable,
    /// No block exists under the requested address.
    BlockNotFound,
    /// The device failed while writing a block.
    StoreWriteError,
    /// The device failed while replacing the root pointer.
    RootUpdateError,
}

/// Failures of the state machine, each surfaced to the dispatch boundary as a
/// distinct abort reason.
#[derive(Clone, Copy, Debug, PartialEq, Eq, Structural)]
pub enum StateError {
    /// A stack identifier outside 1..=3 was supplied.
    InvalidStackId,
    /// The attempted transition moves from an empty stack or puts a larger
    /// disc on a smaller one.
    IllegalMove,
    /// The initializer was invoked by a caller other than the distinguished
    /// system-initializer identity.
    Forbidden,
    /// No state has been persisted yet.
    NoState,
    /// The persisted bytes do not decode as a state record.
    CorruptState,
    /// The state does not fit the wire format.
    SerializationError,
    /// The store failed while writing the new snapshot.
    StoreWriteError,
    /// The store failed while advancing the root pointer.
    RootUpdateError,
}

} // verus!
