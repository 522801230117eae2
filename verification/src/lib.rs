//! Revision tracking and ingestion for simulation output directories.
//!
//! The client half hashes a tracked file set into a content-addressed
//! revision, keeps the revision record and decides whether an upload is
//! needed. The server half selects archive members, extracts structured
//! values from them and diffs them against the parent revision.

pub mod error;
pub mod text;
pub mod assoc;
pub mod table;
pub mod record;
pub mod hashing;
pub mod archive;
pub mod diff;
pub mod processor;
pub mod config;
pub mod connection;
pub mod user;
pub mod command;
pub mod value;
pub mod json;
pub mod extract;
pub mod trajectory;
pub mod schema;
