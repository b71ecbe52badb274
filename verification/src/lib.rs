//! Chunk dictionaries and prefetch blobs for a lazily loaded image
//! filesystem.
//!
//! A chunk dictionary is a filesystem tree whose one file lists chunks that
//! exist in source blobs. A prefetch blob is a new blob into which the chunks
//! of selected nodes are copied back to back. Both are built over accumulators
//! that keep the running offsets, the chunk indices and the content hash of
//! the blob that is written; the contracts of the builders say, for every
//! input, which tree, which blob table and which bytes come out, or which
//! failure.

pub mod align;
pub mod blob;
pub mod bootstrap;
pub mod chunk;
pub mod compress;
pub mod context;
pub mod dict;
pub mod dict_laws;
pub mod digest;
pub mod error;
pub mod filter;
pub mod filter_laws;
pub mod generator;
pub mod keyed;
pub mod manager;
pub mod mode;
pub mod prefetch;
pub mod prefetch_laws;
pub mod reader;
pub mod tree;
