use wubrag::error::RAGError;

#[test]
fn error_messages_describe_each_condition() {
    assert_eq!(
        RAGError::Io { message: "broken pipe".to_string() }.message(),
        "IO error: broken pipe"
    );
    assert_eq!(
        RAGError::FileRead { path: "a/b.rs".to_string() }.message(),
        "failed to read file at a/b.rs"
    );
    assert_eq!(
        RAGError::InvalidUtf8 { path: "x.bin".to_string() }.message(),
        "invalid UTF-8 in file x.bin"
    );
    assert_eq!(
        RAGError::ParsingFailed { extension: "rs".to_string() }.message(),
        "parsing failed for rs"
    );
    assert_eq!(
        RAGError::ModelInit("no model".to_string()).message(),
        "embedding model initialization failed: no model"
    );
    assert_eq!(
        RAGError::Embedding("too long".to_string()).message(),
        "embedding generation failed: too long"
    );
    assert_eq!(
        RAGError::Serialization("bad value".to_string()).message(),
        "serialization failed: bad value"
    );
    assert_eq!(
        RAGError::Deserialization("bad byte".to_string()).message(),
        "deserialization failed: bad byte"
    );
    assert_eq!(
        RAGError::EmptyEmbeddings.message(),
        "empty embeddings vector"
    );
    assert_eq!(
        RAGError::DimensionMismatch { expected: 384, got: 0 }.message(),
        "dimension mismatch: expected 384, got 0"
    );
    assert_eq!(
        RAGError::InvalidIndex(17).message(),
        "invalid index: 17"
    );
    assert_eq!(
        RAGError::NoChunks { doc_id: [0u8; 32] }.message(),
        "no chunks produced for a document"
    );
}
