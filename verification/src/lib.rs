//! Batch-production engine for columnar encodings of genomic record streams.
//!
//! The crate covers two pieces of the pipeline that turns parsed genomic
//! records into typed record batches:
//!
//! - attribute harmonization: inference of a stable, name-sorted column
//!   schema from per-record key/value annotations whose key set and value
//!   shape vary across records, and per-column accumulators that encode
//!   attribute values into columnar arrays;
//! - the scan engine: slicing a record stream into bounded batches, either
//!   sequentially (with an optional record limit) or restricted to genomic
//!   coordinate regions resolved through a sequence index.

pub mod attribute;
pub mod column;
pub mod error;
pub mod fasta;
pub mod order;
