//! Verified core of a file synchronisation tool: configuration, the record of
//! uploaded file hashes, the events sent to the server, and the decisions that
//! drive watching, polling and unpacking.

pub mod config;
pub mod text;
pub mod sync_state;
pub mod digest;
pub mod event;
pub mod archive;
pub mod path;
pub mod watcher;
