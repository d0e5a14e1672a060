//! The error taxonomy of the pipeline engine.
//!
//! Every error is reported synchronously to the immediate caller; nothing in
//! this layer retries. Stages that ran before a failure inside a sequence are
//! not rolled back: execution streams left to right.

use vstd::prelude::*;

verus! {

/// A stage constructor rejected its parameters (for example, a pattern that
/// the backend's pattern engine refuses). Raised eagerly at construction,
/// never deferred to first use.
#[derive(Debug)]
pub struct ConstructionError {
    /// What the backend reported about the rejected parameters.
    pub message: String,
}

/// A stage's backend operation failed while a pipeline ran. The first failing
/// stage stops the remainder of its sequence.
#[derive(Debug)]
pub enum ExecutionError {
    /// The backend reported a failure for one stage.
    Backend(String),
    /// A reported span could not be re-based onto the original input because
    /// the resulting offset would not fit in `usize`.
    OffsetOverflow,
}

/// Structural decoding failed.
#[derive(Debug, Clone, Copy, PartialEq, Eq, Structural)]
pub enum DecodeError {
    /// The input is not a structural object.
    NotAnObject,
    /// The object's field shape matches no known signature.
    NoMatch,
    /// The shape matched a signature, but a field holds a value of the wrong
    /// kind.
    BadField,
    /// The object carries the sequence discriminator, but its stage list is
    /// missing or malformed.
    BadSequence,
    /// The decoded parameters were rejected by the stage's constructor.
    InvalidStage,
}

} // verus!
