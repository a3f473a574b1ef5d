//! A verified core for a web-crawl ingestion pipeline.
//!
//! The library parses cluster-index lines, CDX records with their JSON
//! metadata, and WARC-style archive buffers; it filters records, chunks them
//! into bounded batches, and decides what a fetch or a consumed batch leads
//! to.  Network and broker I/O stay outside, in the surrounding application.
use vstd::prelude::*;

pub mod batch;
pub mod broker;
pub mod commoncrawl;
pub mod fetch;
pub mod json;
pub mod text;
pub mod warc;
pub mod worker;

verus! {

/// Upper bound on the number of entries in one published batch.
pub const BATCH_SIZE: usize = 1000;

/// The well-known queue the batches travel over.
pub const CC_QUEUE_NAME: &'static str = "batches";

} // verus!
