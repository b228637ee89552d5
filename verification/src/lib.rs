//! Axiom: a local-first document orchestrator.
//!
//! The library holds the verified core of the orchestrator: the document model
//! and its lifecycle, explicit relationships between documents, sidecar
//! metadata, workspace paths, file-event filtering and debouncing, keyword
//! statistics used for similarity, and the decisions taken by the commands.

pub mod text;
pub mod status;
pub mod digest;
pub mod clock;
pub mod errors;
pub mod ids;
pub mod document;
pub mod relationship;
pub mod metadata;
pub mod file_manager;
pub mod watcher;
pub mod onnx_engine;
pub mod store;
pub mod commands;
pub mod search_index;
