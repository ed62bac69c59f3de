//! A verified core for a declarative mod-pack installer.
//!
//! The library covers the resumable, hash-verified installation pipeline:
//! manifest validation, download bookkeeping (content hashing, byte counting,
//! destination-name derivation), the persisted installation ledger, source
//! resolution, and the phase/progress state machine that drives a run.
//! Network and filesystem work is performed by an unverified shell that
//! feeds plain values in and carries requested actions out.

pub mod commands;
pub mod config;
pub mod download;
pub mod error;
pub mod hashing;
pub mod install;
pub mod launcher;
pub mod ledger;
pub mod resolver;
pub mod text;
pub mod version;
