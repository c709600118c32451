use vstd::prelude::*;

verus! {

/// Errors reported by stream-management calls.
///
/// Every error is local and recoverable and carries the offending stream id;
/// none is fatal to the compositor.
#[derive(Clone, Copy, Debug, PartialEq, Eq, Structural)]
pub enum CompositorError {
    /// An operation referenced a stream id that is not currently registered.
    UnknownStreamId(usize),
    /// `add_video` was called with an id that is already in use.
    DuplicateStreamId(usize),
}

} // verus!
