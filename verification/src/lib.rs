//! Crawl/ingest engine for discovering repositories on a hosted forge.
//!
//! The library holds the verified core of the crawler: response
//! classification with retry, backoff and credential rotation; the paginated
//! discovery pipeline that tracks a resumable cursor and filters forks; and
//! the state store that buffers discovered records and frames the on-disk
//! checkpoint and output files. Network and file I/O live outside the
//! library and hand plain values in and out.

pub mod ascii;
pub mod checkpoint;
pub mod client;
pub mod config;
pub mod data;
pub mod num;
pub mod output;
pub mod pipeline;

use vstd::prelude::*;

verus! {

/// Number of repositories requested per listing page, and the size of an
/// enrichment batch handed to the query endpoint.
pub const PAGE_SIZE: usize = 100;

} // verus!
