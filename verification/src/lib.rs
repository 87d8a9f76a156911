//! Core of a code-search indexer: it turns documents into
//! content-addressed, syntax-aware text fragments ("chunks") and ranks
//! stored entries against caller-computed scores.
//!
//! Identity is content-derived throughout: a document's identity is the
//! digest of its normalized path and text, a chunk's the digest of its
//! document's identity and its trimmed text, so byte-identical inputs
//! always produce byte-identical identifiers.

pub mod chunking;
pub mod document;
pub mod error;
pub mod grammar;
pub mod hashing;
pub mod indexing;
pub mod syntax;
pub mod text;
