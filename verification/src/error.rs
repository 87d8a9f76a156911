//! Error taxonomy of the indexing core. Failures on one file or one
//! document are absorbed by the callers; these variants surface the
//! conditions that must be reported or are contract violations.

use vstd::prelude::*;
use vstd::string::*;

use crate::text::{append_decimal, dec_digits};

verus! {

#[derive(Debug, Clone, PartialEq, Eq)]
pub enum RAGError {
    Io { message: String },
    FileRead { path: String },
    InvalidUtf8 { path: String },
    ParsingFailed { extension: String },
    ModelInit(String),
    Embedding(String),
    Serialization(String),
    Deserialization(String),
    EmptyEmbeddings,
    DimensionMismatch { expected: usize, got: usize },
    InvalidIndex(usize),
    NoChunks { doc_id: [u8; 32] },
}

/// The descriptive line each error renders to.
pub open spec fn message_spec(e: RAGError) -> Seq<char> {
    match e {
        RAGError::Io { message } => "IO error: "@ + message@,
        RAGError::FileRead { path } => "failed to read file at "@ + path@,
        RAGError::InvalidUtf8 { path } => "invalid UTF-8 in file "@ + path@,
        RAGError::ParsingFailed { extension } => "parsing failed for "@ + extension@,
        RAGError::ModelInit(m) => "embedding model initialization failed: "@ + m@,
        RAGError::Embedding(m) => "embedding generation failed: "@ + m@,
        RAGError::Serialization(m) => "serialization failed: "@ + m@,
        RAGError::Deserialization(m) => "deserialization failed: "@ + m@,
        RAGError::EmptyEmbeddings => "empty embeddings vector"@,
        RAGError::DimensionMismatch { expected, got } => "dimension mismatch: expected "@
            + dec_digits(expected as int) + ", got "@ + dec_digits(got as int),
        RAGError::InvalidIndex(i) => "invalid index: "@ + dec_digits(i as int),
        RAGError::NoChunks { doc_id } => "no chunks produced for a document"@,
    }
}

impl RAGError {
    /// The descriptive line for this error.
    pub fn message(&self) -> (r: String)
        ensures
            r@ == message_spec(*self),
    {
        match self {
            RAGError::Io { message } => {
                let mut s = String::from_str("IO error: ");
                s.append(message.as_str());
                s
            },
            RAGError::FileRead { path } => {
                let mut s = String::from_str("failed to read file at ");
                s.append(path.as_str());
                s
            },
            RAGError::InvalidUtf8 { path } => {
                let mut s = String::from_str("invalid UTF-8 in file ");
                s.append(path.as_str());
                s
            },
            RAGError::ParsingFailed { extension } => {
                let mut s = String::from_str("parsing failed for ");
                s.append(extension.as_str());
                s
            },
            RAGError::ModelInit(m) => {
                let mut s = String::from_str("embedding model initialization failed: ");
                s.append(m.as_str());
                s
            },
            RAGError::Embedding(m) => {
                let mut s = String::from_str("embedding generation failed: ");
                s.append(m.as_str());
                s
            },
            RAGError::Serialization(m) => {
                let mut s = String::from_str("serialization failed: ");
                s.append(m.as_str());
                s
            },
            RAGError::Deserialization(m) => {
                let mut s = String::from_str("deserialization failed: ");
                s.append(m.as_str());
                s
            },
            RAGError::EmptyEmbeddings => String::from_str("empty embeddings vector"),
            RAGError::DimensionMismatch { expected, got } => {
                let mut s = String::from_str("dimension mismatch: expected ");
                append_decimal(&mut s, *expected as u64);
                s.append(", got ");
                append_decimal(&mut s, *got as u64);
                s
            },
            RAGError::InvalidIndex(i) => {
                let mut s = String::from_str("invalid index: ");
                append_decimal(&mut s, *i as u64);
                s
            },
            RAGError::NoChunks { doc_id } => String::from_str(
                "no chunks produced for a document",
            ),
        }
    }
}

} // verus!
