//! A verified mirror of a remote dataset portal's catalog.
//!
//! The crate keeps a relational model of the portal's releases, files,
//! datasets and per-gene summary metrics, refreshes that model from the
//! portal's CSV and JSON feeds under a time-based freshness policy, and
//! plans the download of file blobs with skip-existing and
//! checksum-verification policies.  All decision logic lives here and is
//! verified; fetching bytes from the network and writing them to disk is
//! left to the embedding program.

pub mod classify;
pub mod cli;
pub mod csv;
pub mod download;
pub mod error;
pub mod models;
pub mod store;
pub mod sync;
pub mod text;
pub mod trusted;
