//! Core indexing and persistence engine of a small vector database.
//!
//! The crate provides the dense HNSW index, the sparse 4-ary inverted
//! index, and the shared storage substrate: a cursor-based buffer
//! manager over an in-memory file image, an LRU node cache, a metadata
//! key-value store, and a version-control layer.

pub mod api;
pub mod buffer;
pub mod bytes;
pub mod chunked_list;
pub mod collection;
pub mod common;
pub mod cosql;
pub mod embedding;
pub mod fixed;
pub mod hashing;
pub mod inverted_index;
pub mod lru;
pub mod meta;
pub mod quantization;
pub mod serializer;
pub mod sparse;
pub mod types;
pub mod vector_store;
pub mod versioning;
