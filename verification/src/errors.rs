//! Errors of the orchestrator.

use vstd::prelude::*;
use vstd::string::*;

verus! {

/// An error of the orchestrator, with the text of the failure it reports.
#[derive(Debug, Clone, PartialEq, Eq)]
pub enum AxiomError {
    Database(String),
    Search(String),
    FileSystem(String),
    DocumentNotFound(String),
    InvalidStatusTransition { from: String, to: String },
    WorkspaceNotInitialized,
    MlInference(String),
    Serialization(String),
}

/// The message shown for an error.
pub open spec fn error_message(e: AxiomError) -> Seq<char> {
    match e {
        AxiomError::Database(m) => "Database error: "@ + m@,
        AxiomError::Search(m) => "Search engine error: "@ + m@,
        AxiomError::FileSystem(m) => "File system error: "@ + m@,
        AxiomError::DocumentNotFound(m) => "Document not found: "@ + m@,
        AxiomError::InvalidStatusTransition { from, to } =>
            "Invalid status transition from "@ + from@ + " to "@ + to@,
        AxiomError::WorkspaceNotInitialized => "Workspace not initialized"@,
        AxiomError::MlInference(m) => "ML inference error: "@ + m@,
        AxiomError::Serialization(m) => "Serialization error: "@ + m@,
    }
}

impl AxiomError {
    /// The message shown for this error.
    pub fn message(&self) -> (s: String)
        ensures
            s@ == error_message(*self),
    {
        match self {
            AxiomError::Database(m) => String::from_str("Database error: ").concat(m.as_str()),
            AxiomError::Search(m) => String::from_str("Search engine error: ").concat(m.as_str()),
            AxiomError::FileSystem(m) => String::from_str("File system error: ").concat(m.as_str()),
            AxiomError::DocumentNotFound(m) => String::from_str("Document not found: ").concat(
                m.as_str(),
            ),
            AxiomError::InvalidStatusTransition { from, to } => {
                let s = String::from_str("Invalid status transition from ").concat(from.as_str());
                s.concat(" to ").concat(to.as_str())
            },
            AxiomError::WorkspaceNotInitialized => String::from_str("Workspace not initialized"),
            AxiomError::MlInference(m) => String::from_str("ML inference error: ").concat(
                m.as_str(),
            ),
            AxiomError::Serialization(m) => String::from_str("Serialization error: ").concat(
                m.as_str(),
            ),
        }
    }
}

} // verus!
