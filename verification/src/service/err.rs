//! Error codes of a response.
use vstd::prelude::*;

verus! {

/// No error.
pub const NONE: u32 = 0;

/// The operation is not valid in the current status.
pub const WRONG_STATE: u32 = 1;

/// The parent root is not the active root.
pub const PARENT_MISMATCH: u32 = 2;

/// The indices do not follow the active index.
pub const INDEX_MISMATCH: u32 = 3;

/// The active index is not in step with the counter.
pub const COUNTER_MISMATCH: u32 = 4;

/// The witness key of the prepared record was lost.
pub const WITNESS_KEY_LOST: u32 = 5;

/// A counter step on an exhausted counter.
pub const COUNTER_EXHAUSTED: u32 = 6;

/// There is no committed release.
pub const NOT_COMMITTED: u32 = 7;

/// The secure element failed.
pub const TROPIC: u32 = 8;

/// The frame is not a request, or one of its fields is malformed.
pub const BAD_PROTO: u32 = 100;

/// A field that the operation needs is absent.
pub const MISSING_FIELD: u32 = 101;

/// The operation is unknown.
pub const BAD_OP: u32 = 102;

/// The frame is longer than any request may be.
pub const FRAME_TOO_LARGE: u32 = 103;

} // verus!
