//! The trusted boundary to the tree-sitter parsing service. A parse turns a
//! text into an opaque syntax tree; a query run against the tree hands back
//! plain captures (node kind, parent kind, source span) that the verified
//! chunking logic filters and assembles. Parsing and querying are functions
//! of the grammar, the query source and the text alone, which the
//! uninterpreted names below record.

use tree_sitter::StreamingIterator;
use vstd::prelude::*;

use crate::grammar::{lang_code, LangId};

verus! {

#[verifier::external_type_specification]
#[verifier::external_body]
pub struct ExTree(tree_sitter::Tree);

/// What one capture of a structural query carries: the matched node's kind,
/// its parent's kind (none at the tree root), and the raw source span.
#[verifier::ext_equal]
pub struct CaptureModel {
    pub kind: Seq<char>,
    pub parent_kind: Option<Seq<char>>,
    pub text: Seq<char>,
}

/// One capture, as the query runner hands it out.
pub struct RawCapture {
    pub kind: String,
    pub parent_kind: Option<String>,
    pub text: String,
}

impl View for RawCapture {
    type V = CaptureModel;

    open spec fn view(&self) -> CaptureModel {
        CaptureModel {
            kind: self.kind@,
            parent_kind: match self.parent_kind {
                Some(p) => Some(p@),
                None => None,
            },
            text: self.text@,
        }
    }
}

pub open spec fn caps_view(s: Seq<RawCapture>) -> Seq<CaptureModel> {
    s.map_values(|c: RawCapture| c@)
}

/// Whether the grammar with the given code parses a text at all. Tree-sitter
/// parsing is deterministic, so this depends on grammar and text alone.
pub uninterp spec fn grammar_parses(lang: int, text: Seq<char>) -> bool;

/// The grammar code and source text a syntax tree was parsed from.
pub uninterp spec fn tree_origin(t: tree_sitter::Tree) -> (int, Seq<char>);

/// The capture list a query selects from the syntax tree of a text under a
/// grammar, in match order. Deterministic in its three arguments; an invalid
/// query selects nothing.
pub uninterp spec fn query_captures(lang: int, query: Seq<char>, text: Seq<char>) -> Seq<
    CaptureModel,
>;

/// Relies on tree_sitter::Parser::{new, set_language, parse} with the
/// grammar of tree_sitter_rust::LANGUAGE: whether a parse succeeds, and the
/// tree it yields, depend on the text alone.
#[verifier::external_body]
fn parse_rust(text: &str) -> (r: Option<tree_sitter::Tree>)
    ensures
        r is Some <==> grammar_parses(lang_code(LangId::Rust), text@),
        r matches Some(t) ==> tree_origin(t) == (lang_code(LangId::Rust), text@),
{
    let mut parser = tree_sitter::Parser::new();
    if parser.set_language(&tree_sitter_rust::LANGUAGE.into()).is_err() {
        return None;
    }
    parser.parse(text, None)
}

/// Relies on tree_sitter::Parser::{new, set_language, parse} with the
/// grammar of tree_sitter_c::LANGUAGE: whether a parse succeeds, and the
/// tree it yields, depend on the text alone.
#[verifier::external_body]
fn parse_c(text: &str) -> (r: Option<tree_sitter::Tree>)
    ensures
        r is Some <==> grammar_parses(lang_code(LangId::C), text@),
        r matches Some(t) ==> tree_origin(t) == (lang_code(LangId::C), text@),
{
    let mut parser = tree_sitter::Parser::new();
    if parser.set_language(&tree_sitter_c::LANGUAGE.into()).is_err() {
        return None;
    }
    parser.parse(text, None)
}

/// Relies on tree_sitter::Parser::{new, set_language, parse} with the
/// grammar of tree_sitter_cpp::LANGUAGE: whether a parse succeeds, and the
/// tree it yields, depend on the text alone.
#[verifier::external_body]
fn parse_cpp(text: &str) -> (r: Option<tree_sitter::Tree>)
    ensures
        r is Some <==> grammar_parses(lang_code(LangId::Cpp), text@),
        r matches Some(t) ==> tree_origin(t) == (lang_code(LangId::Cpp), text@),
{
    let mut parser = tree_sitter::Parser::new();
    if parser.set_language(&tree_sitter_cpp::LANGUAGE.into()).is_err() {
        return None;
    }
    parser.parse(text, None)
}

/// Relies on tree_sitter::Parser::{new, set_language, parse} with the
/// grammar of tree_sitter_cuda::LANGUAGE: whether a parse succeeds, and the
/// tree it yields, depend on the text alone.
#[verifier::external_body]
fn parse_cuda(text: &str) -> (r: Option<tree_sitter::Tree>)
    ensures
        r is Some <==> grammar_parses(lang_code(LangId::Cuda), text@),
        r matches Some(t) ==> tree_origin(t) == (lang_code(LangId::Cuda), text@),
{
    let mut parser = tree_sitter::Parser::new();
    if parser.set_language(&tree_sitter_cuda::LANGUAGE.into()).is_err() {
        return None;
    }
    parser.parse(text, None)
}

/// Relies on tree_sitter::Parser::{new, set_language, parse} with the
/// grammar of tree_sitter_javascript::LANGUAGE: whether a parse succeeds,
/// and the tree it yields, depend on the text alone.
#[verifier::external_body]
fn parse_js(text: &str) -> (r: Option<tree_sitter::Tree>)
    ensures
        r is Some <==> grammar_parses(lang_code(LangId::Js), text@),
        r matches Some(t) ==> tree_origin(t) == (lang_code(LangId::Js), text@),
{
    let mut parser = tree_sitter::Parser::new();
    if parser.set_language(&tree_sitter_javascript::LANGUAGE.into()).is_err() {
        return None;
    }
    parser.parse(text, None)
}

/// Relies on tree_sitter::Parser::{new, set_language, parse} with the
/// grammar of tree_sitter_python::LANGUAGE: whether a parse succeeds, and
/// the tree it yields, depend on the text alone.
#[verifier::external_body]
fn parse_py(text: &str) -> (r: Option<tree_sitter::Tree>)
    ensures
        r is Some <==> grammar_parses(lang_code(LangId::Py), text@),
        r matches Some(t) ==> tree_origin(t) == (lang_code(LangId::Py), text@),
{
    let mut parser = tree_sitter::Parser::new();
    if parser.set_language(&tree_sitter_python::LANGUAGE.into()).is_err() {
        return None;
    }
    parser.parse(text, None)
}

/// Parses a text with the registered grammar.
pub(crate) fn parse_lang(lang: LangId, text: &str) -> (r: Option<tree_sitter::Tree>)
    ensures
        r is Some <==> grammar_parses(lang_code(lang), text@),
        r matches Some(t) ==> tree_origin(t) == (lang_code(lang), text@),
{
    match lang {
        LangId::Rust => parse_rust(text),
        LangId::C => parse_c(text),
        LangId::Cpp => parse_cpp(text),
        LangId::Cuda => parse_cuda(text),
        LangId::Js => parse_js(text),
        LangId::Py => parse_py(text),
    }
}

/// Relies on tree_sitter::Query::new, QueryCursor::matches and the Node
/// accessors kind, parent and utf8_text: the matches of a query against a
/// tree, walked in order, are a function of the grammar, the query source
/// and the parsed text alone; a query that does not compile selects
/// nothing.
#[verifier::external_body]
pub(crate) fn run_query_raw(t: &tree_sitter::Tree, query_src: &str, text: &str) -> (r: Vec<
    RawCapture,
>)
    requires
        tree_origin(*t).1 == text@,
    ensures
        caps_view(r@) == query_captures(tree_origin(*t).0, query_src@, tree_origin(*t).1),
{
    let query = match tree_sitter::Query::new(&t.language(), query_src) {
        Ok(q) => q,
        Err(_) => return Vec::new(),
    };
    let (bytes, mut out) = (text.as_bytes(), Vec::new());
    let mut cursor = tree_sitter::QueryCursor::new();
    let mut matches = cursor.matches(&query, t.root_node(), bytes);
    while let Some(m) = matches.next() {
        for c in m.captures() {
            let parent_kind = c.node.parent().map(|p| p.kind().to_string());
            let span = c.node.utf8_text(bytes).unwrap_or("").to_string();
            out.push(RawCapture { kind: c.node.kind().to_string(), parent_kind, text: span });
        }
    }
    out
}

} // verus!
