use wubrag::chunking::{
    chunk_all_documents, chunk_document, compute_chunk_id, naive_chunk_document, Chunk,
};
use wubrag::document::make_document;

fn ids(chunks: &[Chunk]) -> Vec<[u8; 32]> {
    chunks.iter().map(|c| c.id).collect()
}

#[test]
fn naive_chunking_splits_on_blank_lines() {
    let d = make_document("a.txt", "hello\n\nworld".to_string(), 12);
    let chunks = chunk_document(&d);
    assert_eq!(chunks.len(), 2);
    assert_eq!(chunks[0].text, "hello");
    assert_eq!(chunks[1].text, "world");
    assert_eq!(chunks[0].chunk_type, "paragraph");
    assert_eq!(chunks[1].chunk_type, "paragraph");
    assert_eq!(chunks[0].doc_id, d.id);
    assert_eq!(chunks[0].char_count, 5);
}

#[test]
fn naive_chunking_drops_blank_segments() {
    let d = make_document("a.txt", "a\n\n   \n\nb\n".to_string(), 10);
    let chunks = chunk_document(&d);
    assert_eq!(chunks.len(), 2);
    assert_eq!(chunks[0].text, "a");
    assert_eq!(chunks[1].text, "b");
    // The second segment's untrimmed span ("b\n") is counted in bytes.
    assert_eq!(chunks[1].char_count, 2);
}

#[test]
fn empty_text_file_yields_one_document_chunk() {
    let d = make_document("a.txt", "".to_string(), 0);
    let chunks = chunk_document(&d);
    assert_eq!(chunks.len(), 1);
    assert_eq!(chunks[0].chunk_type, "document");
    assert_eq!(chunks[0].text, "");
}

#[test]
fn unregistered_extension_matches_naive_splitter() {
    let d = make_document(
        "notes.md",
        "first paragraph\n\nsecond paragraph".to_string(),
        33,
    );
    let via_document = chunk_document(&d);
    let direct = naive_chunk_document(&d.text, d.id);
    assert_eq!(via_document.len(), direct.len());
    for (a, b) in via_document.iter().zip(direct.iter()) {
        assert_eq!(a.id, b.id);
        assert_eq!(a.text, b.text);
        assert_eq!(a.chunk_type, b.chunk_type);
        assert_eq!(a.char_count, b.char_count);
    }
}

#[test]
fn single_function_rust_file_yields_one_function_chunk() {
    let d = make_document("main.rs", "fn main() {}\n".to_string(), 13);
    let chunks = chunk_document(&d);
    assert_eq!(chunks.len(), 1);
    assert_eq!(chunks[0].chunk_type, "function_item");
    assert_eq!(chunks[0].text, "fn main() {}");
    assert_eq!(chunks[0].char_count, 12);
    assert_eq!(chunks[0].id, compute_chunk_id(&d.id, "fn main() {}"));
}

#[test]
fn containers_come_before_functions() {
    let src = "struct S;\n\nfn f() {}\n\nenum E { A }\n";
    let d = make_document("lib.rs", src.to_string(), src.len() as u64);
    let chunks = chunk_document(&d);
    let kinds: Vec<&str> = chunks.iter().map(|c| c.chunk_type.as_str()).collect();
    assert_eq!(kinds, vec!["struct_item", "enum_item", "function_item"]);
    assert_eq!(chunks[0].text, "struct S;");
    assert_eq!(chunks[1].text, "enum E { A }");
    assert_eq!(chunks[2].text, "fn f() {}");
}

#[test]
fn nested_declarations_stay_inside_their_parent_chunk() {
    let src = "fn outer() {\n    fn inner() {}\n}\n";
    let d = make_document("nest.rs", src.to_string(), src.len() as u64);
    let chunks = chunk_document(&d);
    assert_eq!(chunks.len(), 1);
    assert_eq!(chunks[0].chunk_type, "function_item");
    assert!(chunks[0].text.contains("fn inner() {}"));
}

#[test]
fn empty_rust_file_falls_back_to_one_document_chunk() {
    let d = make_document("empty.rs", "".to_string(), 0);
    let chunks = chunk_document(&d);
    assert_eq!(chunks.len(), 1);
    assert_eq!(chunks[0].chunk_type, "document");
    assert_eq!(chunks[0].text, "");
}

#[test]
fn python_class_and_function_are_both_extracted() {
    let src = "class A:\n    pass\n\ndef f():\n    pass\n";
    let d = make_document("mod.py", src.to_string(), src.len() as u64);
    let chunks = chunk_document(&d);
    assert_eq!(chunks.len(), 2);
    assert_eq!(chunks[0].chunk_type, "class_definition");
    assert_eq!(chunks[1].chunk_type, "function_definition");
}

#[test]
fn byte_identical_declarations_collapse_to_one_id_and_both_stay() {
    // Two top-level declarations with byte-identical text share a ChunkID;
    // the chunk list keeps both occurrences and the identifier map aliases
    // to the later position.
    let src = "fn a() {}\n\nmod m {}\n\nfn a() {}\n";
    let d = make_document("dup.rs", src.to_string(), src.len() as u64);
    let docs = vec![d];
    let (chunks, map) = chunk_all_documents(&docs);
    let same: Vec<usize> = (0..chunks.len())
        .filter(|&i| chunks[i].text == "fn a() {}")
        .collect();
    assert_eq!(same.len(), 2);
    assert_eq!(chunks[same[0]].id, chunks[same[1]].id);
    assert_eq!(map.get(&chunks[same[0]].id), Some(same[1]));
}

#[test]
fn pipeline_is_deterministic_across_runs() {
    let docs = vec![
        make_document("a.rs", "fn a() {}\n\nstruct B;\n".to_string(), 21),
        make_document("b.txt", "one\n\ntwo\n\nthree".to_string(), 15),
        make_document("c.py", "def f():\n    pass\n".to_string(), 18),
    ];
    let (c1, _) = chunk_all_documents(&docs);
    let (c2, _) = chunk_all_documents(&docs);
    let mut ids1 = ids(&c1);
    let mut ids2 = ids(&c2);
    ids1.sort();
    ids2.sort();
    assert_eq!(ids1, ids2);
    assert!(!c1.is_empty());
}

#[test]
fn structured_chunking_is_idempotent() {
    let src = "struct S { x: u8 }\n\nfn f() -> u8 { 1 }\n";
    let d = make_document("s.rs", src.to_string(), src.len() as u64);
    let c1 = chunk_document(&d);
    let c2 = chunk_document(&d);
    assert_eq!(c1.len(), c2.len());
    for (a, b) in c1.iter().zip(c2.iter()) {
        assert_eq!(a.id, b.id);
        assert_eq!(a.text, b.text);
        assert_eq!(a.chunk_type, b.chunk_type);
        assert_eq!(a.char_count, b.char_count);
    }
}

#[test]
fn every_document_yields_at_least_one_chunk() {
    let cases = vec![
        ("a.txt", ""),
        ("b.txt", "   \n  \n"),
        ("c.rs", ""),
        ("d.rs", "// just a comment\n"),
        ("e.py", "\n\n\n\n"),
        ("f.unknown", "x"),
    ];
    for (path, text) in cases {
        let d = make_document(path, text.to_string(), text.len() as u64);
        let chunks = chunk_document(&d);
        assert!(chunks.len() >= 1, "no chunks for {}", path);
        for c in &chunks {
            if c.chunk_type != "document" {
                assert!(!c.text.trim().is_empty());
            }
        }
    }
}

#[test]
fn javascript_functions_are_extracted_at_top_level() {
    let src = "function f() {}\n\nclass C {}\n";
    let d = make_document("app.js", src.to_string(), src.len() as u64);
    let chunks = chunk_document(&d);
    let kinds: Vec<&str> = chunks.iter().map(|c| c.chunk_type.as_str()).collect();
    assert_eq!(kinds, vec!["class_declaration", "function_declaration"]);
}

#[test]
fn c_files_fall_back_to_one_document_chunk() {
    // The C grammar's file root is not one of the recognized top-level
    // parents, so no capture survives the filter and the structured path
    // emits the single whole-document fallback chunk.
    let src = "int main() { return 0; }\n";
    let d = make_document("main.c", src.to_string(), src.len() as u64);
    let chunks = chunk_document(&d);
    assert_eq!(chunks.len(), 1);
    assert_eq!(chunks[0].chunk_type, "document");
    assert_eq!(chunks[0].text, "int main() { return 0; }");
}

#[test]
fn html_has_queries_but_no_grammar_and_chunks_naively() {
    let src = "<p>one</p>\n\n<p>two</p>";
    let d = make_document("page.html", src.to_string(), src.len() as u64);
    let chunks = chunk_document(&d);
    assert_eq!(chunks.len(), 2);
    assert_eq!(chunks[0].chunk_type, "paragraph");
    assert_eq!(chunks[0].text, "<p>one</p>");
}

#[test]
fn chunk_id_binds_document_and_text() {
    let d1 = make_document("a.txt", "same".to_string(), 4);
    let d2 = make_document("b.txt", "same".to_string(), 4);
    let c1 = chunk_document(&d1);
    let c2 = chunk_document(&d2);
    // Same text under different documents gets different identities.
    assert_ne!(c1[0].id, c2[0].id);
    // And recomputing from the parts reproduces the identity.
    assert_eq!(c1[0].id, compute_chunk_id(&d1.id, "same"));
}
