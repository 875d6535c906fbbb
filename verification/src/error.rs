//! The library's error type.

use vstd::prelude::*;
use crate::text::concat;

verus! {

#[verifier::external_type_specification]
#[verifier::external_body]
pub struct ExIoError(std::io::Error);

/// Errors raised by the knowledge-graph operations.
#[derive(Debug)]
pub enum NexusError {
    Database(String),
    BlockNotFound(String),
    InvalidBlockType(String),
    InvalidEdgeType(String),
    CircularReference(String, String),
    StructuralLint(String),
    Synthesis(String),
    Io(std::io::Error),
}

/// The text of an I/O error (its `Display` form).
#[verifier::external_body]
fn io_error_text(e: &std::io::Error) -> (s: String) {
    format!("{}", e)
}

/// The message of an error other than an I/O error, as it is displayed.
pub open spec fn nexus_error_message(e: NexusError) -> Seq<char> {
    match e {
        NexusError::Database(m) => "Database error: "@ + m@,
        NexusError::BlockNotFound(m) => "Block not found: "@ + m@,
        NexusError::InvalidBlockType(m) => "Invalid block type: "@ + m@,
        NexusError::InvalidEdgeType(m) => "Invalid edge type: "@ + m@,
        NexusError::CircularReference(a, b) => "Circular reference detected: "@ + a@ + " -> "@
            + b@,
        NexusError::StructuralLint(m) => "Structural lint failed: "@ + m@,
        NexusError::Synthesis(m) => "Synthesis error: "@ + m@,
        NexusError::Io(_) => "IO error: "@,
    }
}

impl NexusError {
    /// The displayed message of the error. For an I/O error it is
    /// `"IO error: "` followed by the operating system's description,
    /// which this contract leaves unstated.
    pub fn message(&self) -> (s: String)
        ensures
            !(*self is Io) ==> s@ == nexus_error_message(*self),
            *self is Io ==> s@.subrange(0, 10) == "IO error: "@ && s@.len() >= 10,
    {
        match self {
            NexusError::Database(m) => concat("Database error: ", m.as_str()),
            NexusError::BlockNotFound(m) => concat("Block not found: ", m.as_str()),
            NexusError::InvalidBlockType(m) => concat("Invalid block type: ", m.as_str()),
            NexusError::InvalidEdgeType(m) => concat("Invalid edge type: ", m.as_str()),
            NexusError::CircularReference(a, b) => {
                let x = concat("Circular reference detected: ", a.as_str());
                let y = concat(x.as_str(), " -> ");
                concat(y.as_str(), b.as_str())
            },
            NexusError::StructuralLint(m) => concat("Structural lint failed: ", m.as_str()),
            NexusError::Synthesis(m) => concat("Synthesis error: ", m.as_str()),
            NexusError::Io(e) => {
                let t = io_error_text(e);
                let s = concat("IO error: ", t.as_str());
                proof {
                    reveal_strlit("IO error: ");
                    assert(s@.subrange(0, 10) =~= "IO error: "@);
                }
                s
            },
        }
    }
}

} // verus!
