//! The chunking engine: every document yields at least one chunk, either
//! through the structural path (tree-pattern queries over a parsed syntax
//! tree, keeping top-level declarations) or through the naive fallback
//! (paragraphs between blank lines). Chunk identity is content-derived.

use vstd::prelude::*;
use vstd::string::*;
use vstd::utf8::encode_utf8;

use crate::document::{Document, DocumentID};
use crate::grammar::{
    container_query_spec, function_query_spec, get_queries_from_extension, lang_code, lang_for_ext,
    language_for_extension, LangId,
};
use crate::hashing::{sha256_of, sha256_pair};
use crate::syntax::{
    caps_view, grammar_parses, parse_lang, query_captures, run_query_raw, tree_origin,
    CaptureModel,
};
use crate::text::{str_eq, trim, trim_spec};

verus! {

/// A chunk identifier: the digest of the owning document's identity
/// followed by the chunk's trimmed text.
pub type ChunkID = [u8; 32];

/// The identity a chunk owes to its document and its trimmed text alone.
pub open spec fn chunk_id_of(doc_id: Seq<u8>, text: Seq<char>) -> Seq<u8> {
    sha256_of(doc_id + encode_utf8(text))
}

/// The chunk identity primitive: the digest of the document identity bytes
/// followed by the chunk text bytes.
pub fn compute_chunk_id(doc_id: &DocumentID, chunk_text: &str) -> (r: ChunkID)
    ensures
        r@ == chunk_id_of(doc_id@, chunk_text@),
{
    sha256_pair(doc_id.as_slice(), chunk_text.as_bytes())
}

/// A content-addressed fragment of one document's text, tagged with the
/// structural kind it was extracted as ("paragraph" and "document" are the
/// two fallback kinds).
#[derive(Debug, Clone)]
pub struct Chunk {
    pub id: ChunkID,
    pub doc_id: DocumentID,
    pub text: String,
    pub chunk_type: String,
    pub char_count: usize,
}

/// The mathematical content of a chunk.
#[verifier::ext_equal]
pub struct ChunkModel {
    pub id: Seq<u8>,
    pub doc_id: Seq<u8>,
    pub text: Seq<char>,
    pub chunk_type: Seq<char>,
    pub char_count: nat,
}

impl View for Chunk {
    type V = ChunkModel;

    open spec fn view(&self) -> ChunkModel {
        ChunkModel {
            id: self.id@,
            doc_id: self.doc_id@,
            text: self.text@,
            chunk_type: self.chunk_type@,
            char_count: self.char_count as nat,
        }
    }
}

pub open spec fn chunks_view(s: Seq<Chunk>) -> Seq<ChunkModel> {
    s.map_values(|c: Chunk| c@)
}

/// The chunk emitted for one paragraph segment: trimmed text, identity over
/// the trimmed text, length of the untrimmed segment in bytes.
pub open spec fn paragraph_chunk(doc_id: Seq<u8>, seg: Seq<char>) -> ChunkModel {
    ChunkModel {
        id: chunk_id_of(doc_id, trim_spec(seg)),
        doc_id: doc_id,
        text: trim_spec(seg),
        chunk_type: "paragraph"@,
        char_count: encode_utf8(seg).len(),
    }
}

/// The single fallback chunk covering a whole document.
pub open spec fn document_chunk(doc_id: Seq<u8>, text: Seq<char>) -> ChunkModel {
    ChunkModel {
        id: chunk_id_of(doc_id, trim_spec(text)),
        doc_id: doc_id,
        text: trim_spec(text),
        chunk_type: "document"@,
        char_count: encode_utf8(text).len(),
    }
}

/// The segments of a text between "\n\n" separators, split left to right on
/// non-overlapping occurrences; a text with no separator is one segment.
pub open spec fn split_blank(s: Seq<char>) -> Seq<Seq<char>>
    decreases s.len(),
{
    if s.len() >= 2 && s[0] == '\n' && s[1] == '\n' {
        seq![Seq::<char>::empty()] + split_blank(s.skip(2))
    } else if s.len() > 0 {
        let rest = split_blank(s.drop_first());
        seq![seq![s[0]] + rest[0]] + rest.skip(1)
    } else {
        seq![s]
    }
}

/// A segment survives when something is left of it after trimming.
pub open spec fn seg_kept(p: Seq<char>) -> bool {
    trim_spec(p).len() > 0
}

/// The paragraph chunks of a list of segments: blank segments discarded,
/// one chunk per survivor, in order.
pub open spec fn kept_chunks(doc_id: Seq<u8>, segs: Seq<Seq<char>>) -> Seq<ChunkModel> {
    segs.filter(|p: Seq<char>| seg_kept(p)).map_values(|p: Seq<char>| paragraph_chunk(doc_id, p))
}

/// What naive chunking of a text yields: its kept paragraph chunks, or the
/// single document fallback chunk when none survives.
pub open spec fn naive_chunks_of(doc_id: Seq<u8>, text: Seq<char>) -> Seq<ChunkModel> {
    let kept = kept_chunks(doc_id, split_blank(text));
    if kept.len() == 0 {
        seq![document_chunk(doc_id, text)]
    } else {
        kept
    }
}

proof fn lemma_split_len(s: Seq<char>)
    ensures
        split_blank(s).len() >= 1,
    decreases s.len(),
{
    if s.len() >= 2 && s[0] == '\n' && s[1] == '\n' {
    } else if s.len() > 0 {
        lemma_split_len(s.drop_first());
    }
}

proof fn lemma_split_found(s: Seq<char>, k: int)
    requires
        0 <= k,
        k + 1 < s.len(),
        s[k] == '\n',
        s[k + 1] == '\n',
        forall|j: int| 0 <= j < k ==> !((#[trigger] s[j]) == '\n' && s[j + 1] == '\n'),
    ensures
        split_blank(s) == seq![s.take(k)] + split_blank(s.skip(k + 2)),
    decreases k,
{
    if k == 0 {
        assert(s.take(0) =~= Seq::<char>::empty());
        assert(split_blank(s) =~~= seq![s.take(k)] + split_blank(s.skip(k + 2)));
    } else {
        assert(!(s[0] == '\n' && s[1] == '\n'));
        let d = s.drop_first();
        lemma_split_len(d);
        lemma_split_found(d, k - 1);
        let rest = split_blank(d);
        assert(d.skip(k + 1) =~= s.skip(k + 2));
        assert(rest[0] == d.take(k - 1)) by {
            assert(rest == seq![d.take(k - 1)] + split_blank(d.skip(k + 1)));
        }
        assert(seq![s[0]] + rest[0] =~= s.take(k));
        assert(rest.skip(1) =~= split_blank(s.skip(k + 2)));
        assert(split_blank(s) =~~= seq![s.take(k)] + split_blank(s.skip(k + 2)));
    }
}

proof fn lemma_split_none(s: Seq<char>)
    requires
        forall|j: int| 0 <= j && j + 1 < s.len() ==> !((#[trigger] s[j]) == '\n' && s[j + 1] == '\n'),
    ensures
        split_blank(s) == seq![s],
    decreases s.len(),
{
    if s.len() >= 2 && s[0] == '\n' && s[1] == '\n' {
        assert(false);
    } else if s.len() > 0 {
        let d = s.drop_first();
        lemma_split_none(d);
        let rest = split_blank(d);
        assert(seq![s[0]] + rest[0] =~= s);
        assert(rest.skip(1) =~= Seq::<Seq<char>>::empty());
        assert(split_blank(s) =~~= seq![s]);
    }
}

proof fn lemma_kept_chunks_push(doc_id: Seq<u8>, segs: Seq<Seq<char>>, p: Seq<char>)
    ensures
        kept_chunks(doc_id, segs.push(p)) == if seg_kept(p) {
            kept_chunks(doc_id, segs).push(paragraph_chunk(doc_id, p))
        } else {
            kept_chunks(doc_id, segs)
        },
{
    reveal(Seq::filter);
    let pred = |p: Seq<char>| seg_kept(p);
    let f = |p: Seq<char>| paragraph_chunk(doc_id, p);
    assert(segs.push(p).drop_last() == segs) by {
        assert(segs.push(p).drop_last() =~= segs);
    }
    assert(segs.push(p).last() == p);
    if seg_kept(p) {
        assert(segs.push(p).filter(pred) == segs.filter(pred).push(p));
        assert(kept_chunks(doc_id, segs.push(p)) =~= kept_chunks(doc_id, segs).push(
            paragraph_chunk(doc_id, p),
        ));
    } else {
        assert(segs.push(p).filter(pred) == segs.filter(pred));
        assert(kept_chunks(doc_id, segs.push(p)) =~= kept_chunks(doc_id, segs));
    }
}

/// Whether a capture sits at the top level of its file: its immediate
/// parent is the file root, a module block, or a top-level program node.
pub open spec fn top_level_parent(p: Option<Seq<char>>) -> bool {
    match p {
        Some(k) => k == "source_file"@ || k == "module"@ || k == "program"@,
        None => false,
    }
}

/// A capture survives when it is top-level and its trimmed text is not
/// empty.
pub open spec fn capture_kept(c: CaptureModel) -> bool {
    top_level_parent(c.parent_kind) && trim_spec(c.text).len() > 0
}

/// The chunk emitted for one surviving capture: trimmed span, the node kind
/// as chunk type, length of the untrimmed span in bytes.
pub open spec fn capture_chunk(doc_id: Seq<u8>, c: CaptureModel) -> ChunkModel {
    ChunkModel {
        id: chunk_id_of(doc_id, trim_spec(c.text)),
        doc_id: doc_id,
        text: trim_spec(c.text),
        chunk_type: c.kind,
        char_count: encode_utf8(c.text).len(),
    }
}

/// The chunks one query's captures yield, in match order.
pub open spec fn chunks_of_captures(doc_id: Seq<u8>, caps: Seq<CaptureModel>) -> Seq<ChunkModel> {
    caps.filter(|c: CaptureModel| capture_kept(c)).map_values(
        |c: CaptureModel| capture_chunk(doc_id, c),
    )
}

/// The chunks an optional registered query contributes.
pub open spec fn opt_query_chunks(
    doc_id: Seq<u8>,
    lang: int,
    q: Option<Seq<char>>,
    text: Seq<char>,
) -> Seq<ChunkModel> {
    match q {
        Some(qs) => chunks_of_captures(doc_id, query_captures(lang, qs, text)),
        None => Seq::empty(),
    }
}

/// What the structured path yields once a parse succeeded: the container
/// query's chunks, then the function query's chunks, or the single document
/// fallback chunk when both queries came up empty.
pub open spec fn structured_chunks_of(
    doc_id: Seq<u8>,
    ext: Seq<char>,
    lang: int,
    text: Seq<char>,
) -> Seq<ChunkModel> {
    let cs = opt_query_chunks(doc_id, lang, container_query_spec(ext), text) + opt_query_chunks(
        doc_id,
        lang,
        function_query_spec(ext),
        text,
    );
    if cs.len() == 0 {
        seq![document_chunk(doc_id, text)]
    } else {
        cs
    }
}

/// What chunking a document yields: the structured path when a grammar is
/// registered for the extension and the parse succeeds, the naive fallback
/// otherwise.
pub open spec fn chunk_document_model(doc_id: Seq<u8>, ext: Seq<char>, text: Seq<char>) -> Seq<
    ChunkModel,
> {
    match lang_for_ext(ext) {
        Some(l) => if grammar_parses(lang_code(l), text) {
            structured_chunks_of(doc_id, ext, lang_code(l), text)
        } else {
            naive_chunks_of(doc_id, text)
        },
        None => naive_chunks_of(doc_id, text),
    }
}

proof fn lemma_capture_chunks_push(doc_id: Seq<u8>, caps: Seq<CaptureModel>, c: CaptureModel)
    ensures
        chunks_of_captures(doc_id, caps.push(c)) == if capture_kept(c) {
            chunks_of_captures(doc_id, caps).push(capture_chunk(doc_id, c))
        } else {
            chunks_of_captures(doc_id, caps)
        },
{
    reveal(Seq::filter);
    let pred = |c: CaptureModel| capture_kept(c);
    assert(caps.push(c).drop_last() == caps) by {
        assert(caps.push(c).drop_last() =~= caps);
    }
    assert(caps.push(c).last() == c);
    if capture_kept(c) {
        assert(caps.push(c).filter(pred) == caps.filter(pred).push(c));
        assert(chunks_of_captures(doc_id, caps.push(c)) =~= chunks_of_captures(
            doc_id,
            caps,
        ).push(capture_chunk(doc_id, c)));
    } else {
        assert(caps.push(c).filter(pred) == caps.filter(pred));
        assert(chunks_of_captures(doc_id, caps.push(c)) =~= chunks_of_captures(doc_id, caps));
    }
}

proof fn lemma_chunks_view_concat(a: Seq<Chunk>, b: Seq<Chunk>)
    ensures
        chunks_view(a + b) == chunks_view(a) + chunks_view(b),
{
    assert(chunks_view(a + b) =~= chunks_view(a) + chunks_view(b));
}

/// Runs one query against a parsed tree and collects the chunks of its
/// surviving captures.
fn collect_query_chunks(tree: &tree_sitter::Tree, query: &str, doc: &Document) -> (r: Vec<Chunk>)
    requires
        tree_origin(*tree).1 == doc.text@,
    ensures
        chunks_view(r@) == chunks_of_captures(
            doc.id@,
            query_captures(tree_origin(*tree).0, query@, tree_origin(*tree).1),
        ),
{
    let caps = run_query_raw(tree, query, doc.text.as_str());
    let n = caps.len();
    let mut chunks: Vec<Chunk> = Vec::new();
    let mut i: usize = 0;
    proof {
        reveal(Seq::filter);
        assert(caps_view(caps@).take(0) =~= Seq::<CaptureModel>::empty());
        assert(chunks_view(chunks@) =~= chunks_of_captures(doc.id@, caps_view(caps@).take(0)));
    }
    while i < n
        invariant
            n == caps@.len(),
            0 <= i <= n,
            caps_view(caps@) == query_captures(tree_origin(*tree).0, query@, tree_origin(*tree).1),
            chunks_view(chunks@) == chunks_of_captures(doc.id@, caps_view(caps@).take(i as int)),
        decreases n - i,
    {
        let c = &caps[i];
        let top = match &c.parent_kind {
            Some(p) => str_eq(p.as_str(), "source_file") || str_eq(p.as_str(), "module") || str_eq(
                p.as_str(),
                "program",
            ),
            None => false,
        };
        let trimmed = trim(c.text.as_str());
        let keep = top && !trimmed.as_str().is_empty();
        proof {
            assert(keep == capture_kept(c@));
        }
        if keep {
            let id = compute_chunk_id(&doc.id, trimmed.as_str());
            let char_count = c.text.as_str().as_bytes().len();
            let chunk = Chunk {
                id,
                doc_id: doc.id,
                text: trimmed,
                chunk_type: c.kind.clone(),
                char_count,
            };
            proof {
                assert(chunk@ == capture_chunk(doc.id@, c@));
            }
            chunks.push(chunk);
        }
        proof {
            let prefix = caps_view(caps@).take(i as int);
            lemma_capture_chunks_push(doc.id@, prefix, c@);
            assert(caps_view(caps@).take(i + 1) =~= prefix.push(c@));
            assert(chunks_of_captures(doc.id@, caps_view(caps@).take(i + 1))
                == chunks_of_captures(doc.id@, prefix.push(c@)));
            if capture_kept(c@) {
                assert(chunks_view(chunks@) =~= chunks_of_captures(doc.id@, prefix).push(
                    capture_chunk(doc.id@, c@),
                ));
            } else {
                assert(chunks_view(chunks@) =~= chunks_of_captures(doc.id@, prefix));
            }
            assert(chunks_view(chunks@) =~= chunks_of_captures(
                doc.id@,
                caps_view(caps@).take(i + 1),
            ));
        }
        i = i + 1;
    }
    proof {
        assert(caps_view(caps@).take(n as int) =~= caps_view(caps@));
    }
    chunks
}

/// The structured path: parse with the registered grammar, run the
/// container query and then the function query, keep top-level captures
/// with non-empty trimmed text, and fall back to one whole-document chunk
/// when nothing was extracted. A failed parse degrades to naive chunking.
pub fn chunk_with_treesitter(doc: &Document, lang: LangId) -> (r: Vec<Chunk>)
    requires
        lang_for_ext(doc.ext@) == Some(lang),
    ensures
        chunks_view(r@) == if grammar_parses(lang_code(lang), doc.text@) {
            structured_chunks_of(doc.id@, doc.ext@, lang_code(lang), doc.text@)
        } else {
            naive_chunks_of(doc.id@, doc.text@)
        },
{
    let tree_opt = parse_lang(lang, doc.text.as_str());
    match tree_opt {
        None => naive_chunk_document(doc.text.as_str(), doc.id),
        Some(tree) => {
            let (cq, fq) = get_queries_from_extension(doc.ext.as_str());
            let mut chunks: Vec<Chunk> = Vec::new();
            proof {
                assert(chunks_view(chunks@) =~= Seq::<ChunkModel>::empty());
            }
            let ghost container_part = opt_query_chunks(
                doc.id@,
                lang_code(lang),
                container_query_spec(doc.ext@),
                doc.text@,
            );
            let ghost function_part = opt_query_chunks(
                doc.id@,
                lang_code(lang),
                function_query_spec(doc.ext@),
                doc.text@,
            );
            match cq {
                Some(q) => {
                    let mut part = collect_query_chunks(&tree, q.as_str(), doc);
                    proof {
                        lemma_chunks_view_concat(chunks@, part@);
                    }
                    chunks.append(&mut part);
                    proof {
                        assert(chunks_view(chunks@) =~= container_part);
                    }
                },
                None => {
                    proof {
                        assert(chunks_view(chunks@) =~= container_part);
                    }
                },
            }
            match fq {
                Some(q) => {
                    let mut part = collect_query_chunks(&tree, q.as_str(), doc);
                    proof {
                        lemma_chunks_view_concat(chunks@, part@);
                    }
                    chunks.append(&mut part);
                    proof {
                        assert(chunks_view(chunks@) =~= container_part + function_part);
                    }
                },
                None => {
                    proof {
                        assert(container_part + function_part =~= container_part);
                        assert(chunks_view(chunks@) =~= container_part + function_part);
                    }
                },
            }
            if chunks.len() == 0 {
                let trimmed_all = trim(doc.text.as_str());
                let id = compute_chunk_id(&doc.id, trimmed_all.as_str());
                let char_count = doc.text.as_str().as_bytes().len();
                let c = Chunk {
                    id,
                    doc_id: doc.id,
                    text: trimmed_all,
                    chunk_type: String::from_str("document"),
                    char_count,
                };
                proof {
                    assert(c@ == document_chunk(doc.id@, doc.text@));
                }
                chunks.push(c);
                proof {
                    assert(chunks_view(chunks@) =~= seq![document_chunk(doc.id@, doc.text@)]);
                }
            }
            chunks
        },
    }
}

/// Chunks one document: the structured path when a grammar is registered
/// for its extension, the naive paragraph fallback otherwise. Every
/// document yields at least one chunk.
pub fn chunk_document(doc: &Document) -> (r: Vec<Chunk>)
    ensures
        chunks_view(r@) == chunk_document_model(doc.id@, doc.ext@, doc.text@),
        r@.len() >= 1,
{
    proof {
        lemma_chunking_total(doc.id@, doc.ext@, doc.text@);
    }
    match language_for_extension(doc.ext.as_str()) {
        Some(lang) => chunk_with_treesitter(doc, lang),
        None => naive_chunk_document(doc.text.as_str(), doc.id),
    }
}

/// The position each chunk identifier maps to, enumerating the chunk list
/// once: on duplicate identifiers the last position wins.
pub open spec fn id_map_of(chunks: Seq<ChunkModel>) -> Map<Seq<u8>, int>
    decreases chunks.len(),
{
    if chunks.len() == 0 {
        Map::empty()
    } else {
        id_map_of(chunks.drop_last()).insert(chunks.last().id, chunks.len() - 1)
    }
}

/// Compares two identifiers byte for byte.
pub fn id_eq(a: &[u8; 32], b: &[u8; 32]) -> (r: bool)
    ensures
        r == (a@ == b@),
{
    let sa = a.as_slice();
    let sb = b.as_slice();
    let mut i: usize = 0;
    while i < 32
        invariant
            sa@ == a@,
            sb@ == b@,
            0 <= i <= 32,
            a@.len() == 32,
            b@.len() == 32,
            forall|k: int| 0 <= k < i ==> a@[k] == b@[k],
        decreases 32 - i,
    {
        if sa[i] != sb[i] {
            return false;
        }
        i = i + 1;
    }
    proof {
        assert(a@ =~= b@);
    }
    true
}

spec fn assoc_map(entries: Seq<([u8; 32], usize)>) -> Map<Seq<u8>, int>
    decreases entries.len(),
{
    if entries.len() == 0 {
        Map::empty()
    } else {
        assoc_map(entries.drop_last()).insert(entries.last().0@, entries.last().1 as int)
    }
}

proof fn lemma_assoc_found(entries: Seq<([u8; 32], usize)>, x: Seq<u8>, j: int)
    requires
        0 <= j < entries.len(),
        entries[j].0@ == x,
        forall|k: int| j < k < entries.len() ==> (#[trigger] entries[k]).0@ != x,
    ensures
        assoc_map(entries).contains_key(x),
        assoc_map(entries)[x] == entries[j].1 as int,
    decreases entries.len(),
{
    if j == entries.len() - 1 {
    } else {
        assert(entries.last().0@ != x);
        lemma_assoc_found(entries.drop_last(), x, j);
    }
}

proof fn lemma_assoc_absent(entries: Seq<([u8; 32], usize)>, x: Seq<u8>)
    requires
        forall|k: int| 0 <= k < entries.len() ==> (#[trigger] entries[k]).0@ != x,
    ensures
        !assoc_map(entries).contains_key(x),
    decreases entries.len(),
{
    if entries.len() > 0 {
        lemma_assoc_absent(entries.drop_last(), x);
    }
}

/// A map from chunk identifier to position in the chunk list, built once
/// from the final list; on duplicate identifiers the last position wins.
pub struct ChunkIdMap {
    entries: Vec<([u8; 32], usize)>,
}

impl View for ChunkIdMap {
    type V = Map<Seq<u8>, int>;

    closed spec fn view(&self) -> Map<Seq<u8>, int> {
        assoc_map(self.entries@)
    }
}

impl ChunkIdMap {
    /// Enumerates the chunk list once, later positions overwriting earlier
    /// ones on equal identifiers.
    pub fn build(chunks: &Vec<Chunk>) -> (m: ChunkIdMap)
        ensures
            m@ == id_map_of(chunks_view(chunks@)),
    {
        let mut entries: Vec<([u8; 32], usize)> = Vec::new();
        let n = chunks.len();
        let mut i: usize = 0;
        proof {
            assert(chunks_view(chunks@).take(0) =~= Seq::<ChunkModel>::empty());
            assert(assoc_map(entries@) =~= id_map_of(chunks_view(chunks@).take(0)));
        }
        while i < n
            invariant
                n == chunks@.len(),
                0 <= i <= n,
                entries@.len() == i,
                assoc_map(entries@) == id_map_of(chunks_view(chunks@).take(i as int)),
            decreases n - i,
        {
            let ghost prev = entries@;
            entries.push((chunks[i].id, i));
            proof {
                assert(entries@.drop_last() == prev) by {
                    assert(entries@.drop_last() =~= prev);
                }
                let cm = chunks_view(chunks@).take(i + 1);
                assert(cm.drop_last() == chunks_view(chunks@).take(i as int)) by {
                    assert(cm.drop_last() =~= chunks_view(chunks@).take(i as int));
                }
                assert(cm.last() == chunks@[i as int]@);
                assert(assoc_map(entries@) =~= id_map_of(cm));
            }
            i = i + 1;
        }
        proof {
            assert(chunks_view(chunks@).take(n as int) =~= chunks_view(chunks@));
        }
        ChunkIdMap { entries }
    }

    /// The position stored for an identifier.
    pub fn get(&self, id: &ChunkID) -> (r: Option<usize>)
        ensures
            match r {
                Some(i) => self@.contains_key(id@) && self@[id@] == i as int,
                None => !self@.contains_key(id@),
            },
    {
        let mut j = self.entries.len();
        while j > 0
            invariant
                0 <= j <= self.entries@.len(),
                forall|k: int|
                    j <= k < self.entries@.len() ==> (#[trigger] self.entries@[k]).0@ != id@,
            decreases j,
        {
            j = j - 1;
            if id_eq(&self.entries[j].0, id) {
                proof {
                    lemma_assoc_found(self.entries@, id@, j as int);
                }
                return Some(self.entries[j].1);
            }
        }
        proof {
            lemma_assoc_absent(self.entries@, id@);
        }
        None
    }
}

/// The chunks of every document, in document order.
pub open spec fn all_chunks_of(docs: Seq<Document>) -> Seq<ChunkModel>
    decreases docs.len(),
{
    if docs.len() == 0 {
        Seq::empty()
    } else {
        all_chunks_of(docs.drop_last()) + chunk_document_model(
            docs.last().id@,
            docs.last().ext@,
            docs.last().text@,
        )
    }
}

/// Chunks each document independently, concatenates the results in
/// document order, and builds the identifier-to-position map over the final
/// list in a single pass.
pub fn chunk_all_documents(docs: &Vec<Document>) -> (r: (Vec<Chunk>, ChunkIdMap))
    ensures
        chunks_view(r.0@) == all_chunks_of(docs@),
        r.1@ == id_map_of(all_chunks_of(docs@)),
{
    let mut chunks: Vec<Chunk> = Vec::new();
    let n = docs.len();
    let mut i: usize = 0;
    proof {
        assert(docs@.take(0) =~= Seq::<Document>::empty());
        assert(chunks_view(chunks@) =~= all_chunks_of(docs@.take(0)));
    }
    while i < n
        invariant
            n == docs@.len(),
            0 <= i <= n,
            chunks_view(chunks@) == all_chunks_of(docs@.take(i as int)),
        decreases n - i,
    {
        let mut cs = chunk_document(&docs[i]);
        proof {
            lemma_chunks_view_concat(chunks@, cs@);
        }
        chunks.append(&mut cs);
        proof {
            let pre = docs@.take(i + 1);
            assert(pre.drop_last() == docs@.take(i as int)) by {
                assert(pre.drop_last() =~= docs@.take(i as int));
            }
            assert(pre.last() == docs@[i as int]);
            assert(chunks_view(chunks@) =~= all_chunks_of(pre));
        }
        i = i + 1;
    }
    proof {
        assert(docs@.take(n as int) =~= docs@);
    }
    let map = ChunkIdMap::build(&chunks);
    (chunks, map)
}

/// The naive fallback: one chunk per paragraph between blank lines, or one
/// chunk covering the whole (trimmed) text when no paragraph survives.
pub fn naive_chunk_document(doc_text: &str, doc_id: DocumentID) -> (r: Vec<Chunk>)
    ensures
        chunks_view(r@) == naive_chunks_of(doc_id@, doc_text@),
{
    let n = doc_text.unicode_len();
    let mut chunks: Vec<Chunk> = Vec::new();
    let ghost mut emitted: Seq<Seq<char>> = Seq::empty();
    let mut start: usize = 0;
    let mut i: usize = 0;
    proof {
        assert(doc_text@.skip(0) =~= doc_text@);
        assert(chunks_view(chunks@) =~= kept_chunks(doc_id@, emitted));
    }
    while n - i > 1
        invariant
            n == doc_text@.len(),
            0 <= start <= i <= n,
            split_blank(doc_text@) == emitted + split_blank(doc_text@.skip(start as int)),
            forall|j: int|
                start <= j && j + 1 < n && j < i ==> !((#[trigger] doc_text@[j]) == '\n'
                    && doc_text@[j + 1] == '\n'),
            chunks_view(chunks@) == kept_chunks(doc_id@, emitted),
        decreases n - i,
    {
        if doc_text.get_char(i) == '\n' && doc_text.get_char(i + 1) == '\n' {
            let seg = doc_text.substring_char(start, i);
            proof {
                lemma_split_found(doc_text@.skip(start as int), i - start);
                assert(doc_text@.skip(start as int).take(i - start) =~= seg@);
                assert(doc_text@.skip(start as int).skip(i - start + 2) =~= doc_text@.skip(
                    i + 2,
                ));
                lemma_kept_chunks_push(doc_id@, emitted, seg@);
                assert(emitted + split_blank(doc_text@.skip(start as int)) =~~= emitted.push(seg@)
                    + split_blank(doc_text@.skip(i + 2)));
            }
            let trimmed = trim(seg);
            if !trimmed.as_str().is_empty() {
                let id = compute_chunk_id(&doc_id, trimmed.as_str());
                let char_count = seg.as_bytes().len();
                let c = Chunk {
                    id,
                    doc_id,
                    text: trimmed,
                    chunk_type: String::from_str("paragraph"),
                    char_count,
                };
                proof {
                    assert(c@ == paragraph_chunk(doc_id@, seg@));
                }
                chunks.push(c);
                proof {
                    assert(chunks_view(chunks@) =~= kept_chunks(doc_id@, emitted.push(seg@)));
                }
            } else {
                proof {
                    assert(chunks_view(chunks@) =~= kept_chunks(doc_id@, emitted.push(seg@)));
                }
            }
            proof {
                emitted = emitted.push(seg@);
            }
            start = i + 2;
            i = i + 2;
        } else {
            i = i + 1;
        }
    }
    let seg = doc_text.substring_char(start, n);
    proof {
        lemma_split_none(doc_text@.skip(start as int));
        assert(doc_text@.skip(start as int) =~= seg@);
        lemma_kept_chunks_push(doc_id@, emitted, seg@);
        assert(emitted + split_blank(doc_text@.skip(start as int)) =~~= emitted.push(seg@));
        assert(split_blank(doc_text@) == emitted.push(seg@));
    }
    let trimmed = trim(seg);
    if !trimmed.as_str().is_empty() {
        let id = compute_chunk_id(&doc_id, trimmed.as_str());
        let char_count = seg.as_bytes().len();
        let c = Chunk {
            id,
            doc_id,
            text: trimmed,
            chunk_type: String::from_str("paragraph"),
            char_count,
        };
        proof {
            assert(c@ == paragraph_chunk(doc_id@, seg@));
        }
        chunks.push(c);
    }
    proof {
        emitted = emitted.push(seg@);
        assert(chunks_view(chunks@) =~= kept_chunks(doc_id@, emitted));
    }
    if chunks.len() == 0 {
        let trimmed_all = trim(doc_text);
        let id = compute_chunk_id(&doc_id, trimmed_all.as_str());
        let char_count = doc_text.as_bytes().len();
        let c = Chunk {
            id,
            doc_id,
            text: trimmed_all,
            chunk_type: String::from_str("document"),
            char_count,
        };
        proof {
            assert(c@ == document_chunk(doc_id@, doc_text@));
            assert(kept_chunks(doc_id@, emitted).len() == 0);
        }
        chunks.push(c);
        proof {
            assert(chunks_view(chunks@) =~= seq![document_chunk(doc_id@, doc_text@)]);
        }
    }
    chunks
}

proof fn lemma_captures_text_nonempty(doc_id: Seq<u8>, caps: Seq<CaptureModel>)
    ensures
        forall|i: int|
            0 <= i < chunks_of_captures(doc_id, caps).len() ==> (#[trigger] chunks_of_captures(
                doc_id,
                caps,
            )[i]).text.len() > 0,
        forall|i: int|
            0 <= i < chunks_of_captures(doc_id, caps).len() ==> (#[trigger] chunks_of_captures(
                doc_id,
                caps,
            )[i]).text == trim_spec(chunks_of_captures(doc_id, caps)[i].text),
{
    broadcast use vstd::seq_lib::group_filter_ensures;

    let pred = |c: CaptureModel| capture_kept(c);
    let cs = chunks_of_captures(doc_id, caps);
    assert forall|i: int|
        0 <= i < cs.len() implies (#[trigger] cs[i]).text.len() > 0 && cs[i].text == trim_spec(
        cs[i].text,
    ) by {
        assert(cs[i] == capture_chunk(doc_id, caps.filter(pred)[i]));
        assert(capture_kept(caps.filter(pred)[i]));
        crate::text::lemma_trim_idempotent(caps.filter(pred)[i].text);
    }
}

proof fn lemma_naive_total(doc_id: Seq<u8>, text: Seq<char>)
    ensures
        naive_chunks_of(doc_id, text).len() >= 1,
        forall|i: int|
            0 <= i < naive_chunks_of(doc_id, text).len() && (#[trigger] naive_chunks_of(
                doc_id,
                text,
            )[i]).text.len() == 0 ==> naive_chunks_of(doc_id, text)[i].chunk_type == "document"@,
        forall|i: int|
            0 <= i < naive_chunks_of(doc_id, text).len() ==> (#[trigger] naive_chunks_of(
                doc_id,
                text,
            )[i]).text == trim_spec(naive_chunks_of(doc_id, text)[i].text),
{
    broadcast use vstd::seq_lib::group_filter_ensures;

    let pred = |p: Seq<char>| seg_kept(p);
    let segs = split_blank(text);
    let kept = kept_chunks(doc_id, segs);
    let out = naive_chunks_of(doc_id, text);
    if kept.len() == 0 {
        crate::text::lemma_trim_idempotent(text);
    } else {
        assert forall|i: int|
            0 <= i < out.len() implies (#[trigger] out[i]).text.len() > 0 && out[i].text
            == trim_spec(out[i].text) by {
            assert(out[i] == paragraph_chunk(doc_id, segs.filter(pred)[i]));
            assert(seg_kept(segs.filter(pred)[i]));
            crate::text::lemma_trim_idempotent(segs.filter(pred)[i]);
        }
    }
}

/// Totality: chunking never yields an empty list, whatever the document
/// holds; and every chunk whose trimmed text is empty is the whole-document
/// fallback chunk (any other emitted chunk carries non-empty trimmed text).
pub proof fn lemma_chunking_total(doc_id: Seq<u8>, ext: Seq<char>, text: Seq<char>)
    ensures
        chunk_document_model(doc_id, ext, text).len() >= 1,
        forall|i: int|
            0 <= i < chunk_document_model(doc_id, ext, text).len() && (
            #[trigger] chunk_document_model(doc_id, ext, text)[i]).text.len() == 0
                ==> chunk_document_model(doc_id, ext, text)[i].chunk_type == "document"@,
        forall|i: int|
            0 <= i < chunk_document_model(doc_id, ext, text).len() ==> (
            #[trigger] chunk_document_model(doc_id, ext, text)[i]).text == trim_spec(
                chunk_document_model(doc_id, ext, text)[i].text,
            ),
{
    let out = chunk_document_model(doc_id, ext, text);
    match lang_for_ext(ext) {
        None => {
            lemma_naive_total(doc_id, text);
        },
        Some(l) => {
            if grammar_parses(lang_code(l), text) {
                let a = opt_query_chunks(doc_id, lang_code(l), container_query_spec(ext), text);
                let b = opt_query_chunks(doc_id, lang_code(l), function_query_spec(ext), text);
                if (a + b).len() == 0 {
                    crate::text::lemma_trim_idempotent(text);
                } else {
                    assert forall|i: int|
                        0 <= i < out.len() implies (#[trigger] out[i]).text.len() > 0 && out[i].text
                        == trim_spec(out[i].text) by {
                        match container_query_spec(ext) {
                            Some(qs) => {
                                lemma_captures_text_nonempty(
                                    doc_id,
                                    query_captures(lang_code(l), qs, text),
                                );
                            },
                            None => {},
                        }
                        match function_query_spec(ext) {
                            Some(qs) => {
                                lemma_captures_text_nonempty(
                                    doc_id,
                                    query_captures(lang_code(l), qs, text),
                                );
                            },
                            None => {},
                        }
                        if i < a.len() {
                            assert(out[i] == a[i]);
                        } else {
                            assert(out[i] == b[i - a.len()]);
                        }
                    }
                }
            } else {
                lemma_naive_total(doc_id, text);
            }
        },
    }
}

/// Determinism of identity: document and chunk identity are pure functions
/// of observable content; byte-identical inputs give byte-identical
/// identifiers.
pub proof fn lemma_chunk_identity_deterministic(
    d1: Seq<u8>,
    t1: Seq<char>,
    d2: Seq<u8>,
    t2: Seq<char>,
)
    requires
        d1 == d2,
        t1 == t2,
    ensures
        chunk_id_of(d1, t1) == chunk_id_of(d2, t2),
{
}

/// Determinism of the pipeline: what chunking yields is a pure function of
/// a document's identity, extension and text, so two runs over
/// byte-identical inputs produce identical chunk lists and hence the same
/// set of chunk identifiers.
pub proof fn lemma_chunking_deterministic(
    id1: Seq<u8>,
    ext1: Seq<char>,
    text1: Seq<char>,
    id2: Seq<u8>,
    ext2: Seq<char>,
    text2: Seq<char>,
)
    requires
        id1 == id2,
        ext1 == ext2,
        text1 == text2,
    ensures
        chunk_document_model(id1, ext1, text1) == chunk_document_model(id2, ext2, text2),
{
}

/// Fallback correctness: a document whose extension has no registered
/// grammar produces exactly the chunks of the naive splitter on its text.
pub proof fn lemma_fallback_unregistered(doc_id: Seq<u8>, ext: Seq<char>, text: Seq<char>)
    requires
        lang_for_ext(ext) is None,
    ensures
        chunk_document_model(doc_id, ext, text) == naive_chunks_of(doc_id, text),
{
}

/// Structured chunking is idempotent: parsing the same source text with the
/// same grammar and query set always selects the same captures, so the
/// chunks that come out, their texts and spans included, are identical.
pub proof fn lemma_structured_idempotent(
    doc_id: Seq<u8>,
    ext: Seq<char>,
    lang: int,
    t1: Seq<char>,
    t2: Seq<char>,
)
    requires
        t1 == t2,
    ensures
        structured_chunks_of(doc_id, ext, lang, t1) == structured_chunks_of(doc_id, ext, lang, t2),
{
}

} // verus!
