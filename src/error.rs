//! The library's error kinds.

use vstd::prelude::*;

verus! {

/// Which end of an edge.
#[derive(PartialEq, Eq, Structural, Clone, Copy, Debug)]
pub enum Endpoint {
    From,
    To,
}

/// Why a mapping could not be read, mapped or written.
#[derive(Debug)]
pub enum SyncError {
    /// The mapping names no source that this configuration can read.
    NoSource { mapping: String },
    /// A warehouse source with neither `table`, `stream` nor `select`.
    NoWarehouseQuery { mapping: String },
    /// Neither a password nor a private key is configured.
    NoCredentials,
    /// The input document is not an array.
    NotAnArray { path: String },
    /// The element at `row` of the input document is not an object.
    BadInput { row: usize, path: String },
    /// Row `row` lacks a column that the mapping reads.
    MissingColumn { row: usize, column: String },
    /// An edge endpoint with an empty `match_on` list.
    NoMatchColumns { endpoint: Endpoint },
    /// An edge mapping refers to a node mapping that does not exist.
    UnknownNodeMapping { mapping: String, reference: String },
}

} // verus!
