//! Ingestion, deduplication and filtered-retrieval engine for an
//! image-serving backend.
//!
//! The library owns the pure logic of the service: the SSRF url guard,
//! the remote-fetch admission decisions, magic-byte format sniffing,
//! content-addressed deduplication, the tag vocabulary and its
//! normalization, filtered random selection, two rate-limit disciplines
//! and a time-bounded response cache. All I/O (HTTP, disk, database)
//! lives outside, handing the library plain values.
use vstd::prelude::*;

pub mod auth;
pub mod cache;
pub mod catalog;
pub mod codec;
pub mod config;
pub mod digest;
pub mod error;
pub mod fetch;
pub mod guard;
pub mod ingest;
pub mod limiter;
pub mod models;
pub mod norm;
pub mod query;
pub mod text;

verus! {

/// Ceiling on the byte size of any accepted image.
pub const MAX_FILE_SIZE: u64 = 10 * 1024 * 1024;

/// Ceiling on the number of redirects a remote fetch may follow.
pub const MAX_REDIRECTS: u32 = 5;

/// Wall-clock ceiling, in seconds, on a remote fetch.
pub const DOWNLOAD_TIMEOUT_SECS: u64 = 30;

} // verus!
