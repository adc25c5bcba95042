//! Error values returned by the store and the buffer.

use vstd::prelude::*;

verus! {

/// The ways a store or buffer operation can fail.  All of them are local,
/// synchronous and recoverable by the caller; no operation that reports one
/// of them leaves any state partially changed.
#[derive(Clone, Copy, Debug, PartialEq, Eq, Structural)]
pub enum ReplayError {
    /// An item's shape or element type disagrees with the field's
    /// configured shape and element type.
    ShapeMismatch,
    /// A write or gather index falls outside the valid slot range.
    IndexOutOfRange,
    /// A pushed transition omits a configured field.
    MissingField,
    /// A sample was requested from a buffer that holds no transition yet.
    EmptyBuffer,
}

} // verus!
