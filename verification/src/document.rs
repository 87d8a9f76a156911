//! Documents: a discovered file's root-relative path, text, extension and
//! size, together with its content-derived identity.

use vstd::prelude::*;
use vstd::string::*;
use vstd::utf8::encode_utf8;

use crate::hashing::{sha256_of, sha256_pair};
use crate::text::{lower_ascii, to_lowercase_ascii};

verus! {

/// A document identifier: the digest of the normalized relative path
/// followed by the full text.
pub type DocumentID = [u8; 32];

/// The identity a document owes to its path and text alone.
pub open spec fn document_id_of(path: Seq<char>, text: Seq<char>) -> Seq<u8> {
    sha256_of(encode_utf8(path) + encode_utf8(text))
}

/// Path separators normalized to '/' so identity is platform-independent.
pub open spec fn normalized_path(s: Seq<char>) -> Seq<char> {
    s.map_values(|c: char| if c == '\\' { '/' } else { c })
}

/// The suffix of `s` after the last occurrence of `c`; `s` itself when `c`
/// does not occur.
pub open spec fn after_last(s: Seq<char>, c: char) -> Seq<char>
    decreases s.len(),
{
    if s.len() == 0 {
        s
    } else if s.last() == c {
        Seq::empty()
    } else {
        after_last(s.drop_last(), c).push(s.last())
    }
}

/// The extension of a path: the portion of the file name after its last
/// '.', empty when the name has no '.' past its first character.
pub open spec fn extension_of_spec(path: Seq<char>) -> Seq<char> {
    let name = after_last(path, '/');
    if name.len() > 0 && name.skip(1).contains('.') {
        after_last(name, '.')
    } else {
        Seq::empty()
    }
}

#[derive(Debug, Clone)]
pub struct Document {
    pub id: DocumentID,
    pub path: String,
    pub text: String,
    pub ext: String,
    pub size: u64,
}

impl Document {
    /// A well-formed document: its identity is the digest of its own path
    /// and text, the path is separator-normalized, and the extension is the
    /// case-folded extension of that path.
    pub open spec fn wf(&self) -> bool {
        &&& self.id@ == document_id_of(self.path@, self.text@)
        &&& forall|k: int| 0 <= k < self.path@.len() ==> self.path@[k] != '\\'
        &&& self.ext@ == lower_ascii(extension_of_spec(self.path@))
    }
}

/// The path a document is identified under: root-relative, with every
/// backslash separator replaced by '/'.
pub fn normalized_path_for_id(relative: &str) -> (r: String)
    ensures
        r@ == normalized_path(relative@),
{
    let n = relative.unicode_len();
    let mut out = String::new();
    let mut i: usize = 0;
    while i < n
        invariant
            n == relative@.len(),
            0 <= i <= n,
            out@ == relative@.take(i as int).map_values(
                |c: char| if c == '\\' { '/' } else { c },
            ),
        decreases n - i,
    {
        let c = relative.get_char(i);
        let mapped = if c == '\\' { '/' } else { c };
        crate::text::push_char(&mut out, mapped);
        proof {
            assert(relative@.take(i + 1).map_values(
                (|c: char| if c == '\\' { '/' } else { c }),
            ) =~= relative@.take(i as int).map_values(
                (|c: char| if c == '\\' { '/' } else { c }),
            ).push(mapped));
        }
        i = i + 1;
    }
    proof {
        assert(relative@.take(n as int) =~= relative@);
    }
    out
}

proof fn lemma_after_last_found(s: Seq<char>, c: char, i: int)
    requires
        0 <= i < s.len(),
        s[i] == c,
        forall|k: int| i < k < s.len() ==> s[k] != c,
    ensures
        after_last(s, c) == s.skip(i + 1),
    decreases s.len() - i,
{
    if i == s.len() - 1 {
        assert(s.last() == c);
        assert(s.skip(i + 1) =~= Seq::<char>::empty());
    } else {
        assert(s.last() != c);
        lemma_after_last_found(s.drop_last(), c, i);
        assert(after_last(s.drop_last(), c).push(s.last()) =~= s.skip(i + 1));
    }
}

proof fn lemma_after_last_absent(s: Seq<char>, c: char)
    requires
        forall|k: int| 0 <= k < s.len() ==> s[k] != c,
    ensures
        after_last(s, c) == s,
    decreases s.len(),
{
    if s.len() > 0 {
        lemma_after_last_absent(s.drop_last(), c);
        assert(after_last(s.drop_last(), c).push(s.last()) =~= s);
    }
}

/// The extension of a path, as its last-dot suffix; a file name whose only
/// '.' leads it (a hidden file) has none.
pub fn extension_of(path: &str) -> (r: String)
    ensures
        r@ == extension_of_spec(path@),
{
    let n = path.unicode_len();
    // The file name starts after the last '/'.
    let mut start: usize = 0;
    let mut i: usize = 0;
    while i < n
        invariant
            n == path@.len(),
            0 <= start <= i <= n,
            start == 0 || path@[start - 1] == '/',
            forall|k: int| start <= k < i ==> path@[k] != '/',
        decreases n - i,
    {
        if path.get_char(i) == '/' {
            start = i + 1;
        }
        i = i + 1;
    }
    proof {
        if start == 0 {
            lemma_after_last_absent(path@, '/');
        } else {
            lemma_after_last_found(path@, '/', start - 1);
        }
        assert(after_last(path@, '/') =~= path@.skip(start as int));
    }
    // The last '.' strictly after the name's first character decides.
    let mut dot: usize = 0;
    let mut has_dot = false;
    let mut j: usize = if start < n {
        start + 1
    } else {
        n
    };
    while j < n
        invariant
            n == path@.len(),
            start < j <= n || (start >= n && j == n),
            has_dot ==> start < dot < j && path@[dot as int] == '.',
            forall|k: int|
                (if has_dot {
                    dot < k < j
                } else {
                    start < k < j
                }) ==> path@[k] != '.',
        decreases n - j,
    {
        if path.get_char(j) == '.' {
            dot = j;
            has_dot = true;
        }
        j = j + 1;
    }
    let ghost name = path@.skip(start as int);
    if has_dot {
        proof {
            assert(name.skip(1) =~= path@.skip(start as int + 1));
            assert(name.skip(1)[dot - start - 1] == '.');
            assert(name.skip(1).contains('.'));
            lemma_after_last_found(name, '.', dot - start);
            assert(name.skip(dot - start + 1) =~= path@.subrange(dot as int + 1, n as int));
        }
        path.substring_char(dot + 1, n).to_owned()
    } else {
        proof {
            if name.len() > 0 && name.skip(1).contains('.') {
                let k = choose|k: int| 0 <= k < name.skip(1).len() && name.skip(1)[k] == '.';
                assert(path@[start + 1 + k] == '.');
                assert(false);
            }
        }
        String::new()
    }
}

/// The document identity primitive: the digest of the path bytes followed
/// by the content bytes.
pub fn compute_document_id(path: &str, content: &str) -> (r: DocumentID)
    ensures
        r@ == document_id_of(path@, content@),
{
    sha256_pair(path.as_bytes(), content.as_bytes())
}

/// Builds the document a discovered file yields: path normalized, extension
/// case-folded, identity computed from the normalized path and the text.
pub fn make_document(relative: &str, text: String, size: u64) -> (d: Document)
    ensures
        d.wf(),
        d.path@ == normalized_path(relative@),
        d.text@ == text@,
        d.size == size,
{
    let path = normalized_path_for_id(relative);
    let raw_ext = extension_of(path.as_str());
    let ext = to_lowercase_ascii(raw_ext.as_str());
    let id = compute_document_id(path.as_str(), text.as_str());
    Document { id, path, text, ext, size }
}

/// Determinism of identity: a document's identity is a pure function of
/// its path and content; byte-identical inputs give byte-identical
/// identifiers.
pub proof fn lemma_document_identity_deterministic(
    p1: Seq<char>,
    t1: Seq<char>,
    p2: Seq<char>,
    t2: Seq<char>,
)
    requires
        p1 == p2,
        t1 == t2,
    ensures
        document_id_of(p1, t1) == document_id_of(p2, t2),
{
}

} // verus!
