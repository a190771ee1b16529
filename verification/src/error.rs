//! The three kinds of failure that the pipeline's stages are told of.

use vstd::prelude::*;

verus! {

/// A segment file could not be opened, read, written or deleted.
#[derive(Debug, PartialEq, Eq)]
pub struct IoError {
    pub message: String,
}

/// The summarization oracle gave no usable answer.
#[derive(Debug, PartialEq, Eq)]
pub struct OracleError {
    pub message: String,
}

/// The relational store could not carry out an operation.
#[derive(Debug, PartialEq, Eq)]
pub enum StoreError {
    /// No further row identity is left in the table.
    Exhausted,
    /// The operation was told of something that it did not wait for, and was
    /// given up.
    Interrupted,
    /// The store reported a failure of its own.
    Failed(String),
}

} // verus!
