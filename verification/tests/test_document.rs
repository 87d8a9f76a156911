use wubrag::document::{
    compute_document_id, extension_of, make_document, normalized_path_for_id,
};

fn hex(bytes: &[u8]) -> String {
    let mut s = String::new();
    for b in bytes {
        s.push_str(&format!("{:02x}", b));
    }
    s
}

#[test]
fn document_id_is_sha256_of_path_then_text() {
    // SHA-256("") for empty path and empty text.
    let id = compute_document_id("", "");
    assert_eq!(
        hex(&id),
        "e3b0c44298fc1c149afbf4c8996fb92427ae41e4649b934ca495991b7852b855"
    );
    // The two inputs are concatenated: ("ab", "c") hashes like "abc".
    let id2 = compute_document_id("ab", "c");
    assert_eq!(
        hex(&id2),
        "ba7816bf8f01cfea414140de5dae2223b00361a396177a9cb410ff61f20015ad"
    );
    let id3 = compute_document_id("a", "bc");
    assert_eq!(hex(&id2), hex(&id3));
}

#[test]
fn document_id_is_deterministic() {
    let a = compute_document_id("src/lib.rs", "fn main() {}");
    let b = compute_document_id("src/lib.rs", "fn main() {}");
    assert_eq!(a, b);
    let c = compute_document_id("src/lib.rs", "fn main() { }");
    assert_ne!(a, c);
    let d = compute_document_id("src/lib2.rs", "fn main() {}");
    assert_ne!(a, d);
}

#[test]
fn path_separators_are_normalized() {
    assert_eq!(normalized_path_for_id("a\\b\\c.rs"), "a/b/c.rs");
    assert_eq!(normalized_path_for_id("a/b/c.rs"), "a/b/c.rs");
    assert_eq!(normalized_path_for_id(""), "");
}

#[test]
fn normalization_makes_identity_platform_independent() {
    let d1 = make_document("dir\\file.txt", "text".to_string(), 4);
    let d2 = make_document("dir/file.txt", "text".to_string(), 4);
    assert_eq!(d1.id, d2.id);
    assert_eq!(d1.path, "dir/file.txt");
}

#[test]
fn extension_follows_the_last_dot_of_the_file_name() {
    assert_eq!(extension_of("a/b/c.rs"), "rs");
    assert_eq!(extension_of("archive.tar.gz"), "gz");
    assert_eq!(extension_of("noext"), "");
    assert_eq!(extension_of(".gitignore"), "");
    assert_eq!(extension_of("dir.d/noext"), "");
    assert_eq!(extension_of("trailing."), "");
}

#[test]
fn make_document_lowercases_the_extension() {
    let d = make_document("Main.RS", "fn main() {}".to_string(), 12);
    assert_eq!(d.ext, "rs");
    assert_eq!(d.size, 12);
    assert_eq!(d.text, "fn main() {}");
}
