//! Contributor identity resolution and release attribution.
//!
//! The same person appears in a repository's history under many spellings of
//! name and email. This library canonicalises those spellings with a mailmap,
//! decides which commits belong to a release, keeps the cache of known authors
//! consistent with the store behind it, and ranks and orders the results for
//! display. Every function is verified against the contract it states.

pub mod lists;
pub mod text;
pub mod pair_map;
pub mod sorting;
pub mod collation;
pub mod mailmap;
pub mod models;
pub mod authors;
pub mod attribution;
pub mod releases;
pub mod versions;
pub mod changelog;
pub mod ranking;
pub mod routes;
pub mod server;

pub use ranking::scores;
