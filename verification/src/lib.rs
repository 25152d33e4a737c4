//! Symbol-level semantic indexing and retrieval for a source repository.
//!
//! The library extracts named definitions (functions, classes) from source
//! text with grammar-aware pattern queries, pairs each definition with a
//! fixed-point embedding vector, persists the pair in an on-disk store, and
//! answers nearest-neighbour queries over the stored vectors by exact scan.
pub mod embedding;
pub mod errors;
pub mod fsq;
pub mod pipeline;
pub mod repo;
pub mod sqlw;
pub mod store;
pub mod text;
pub mod tsq;
pub mod symbols;
