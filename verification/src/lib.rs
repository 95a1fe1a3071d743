//! Verified core of a backup and recovery operator for a game-world server.
//!
//! The crate holds the decisions of the operator as functions on plain
//! values, each with a contract: which manifest records a snapshot honours,
//! how a control URL is rewritten, in which order a recovery proceeds. The
//! program around it performs the file, process and network operations.

pub mod archiver;
pub mod backup_arg;
pub mod cleanup;
pub mod hook;
pub mod manifest;
pub mod recovery;
pub mod recovery_laws;
pub mod snapshot;
pub mod snapshot_laws;
pub mod stats;
pub mod supervisor;
pub mod text;
pub mod upload;
