//! The grammar registry: a fixed, data-driven table from file extension to
//! a parsing grammar and two declarative tree-pattern queries, one for
//! container-level declarations and one for callable-level declarations.
//! Unknown extensions have no grammar and route a document to the naive
//! paragraph fallback.

use vstd::prelude::*;
use vstd::string::*;

use crate::text::str_eq;

verus! {

/// The grammars the registry knows.
#[derive(Debug, Clone, Copy, PartialEq, Eq)]
pub enum LangId {
    Rust,
    C,
    Cpp,
    Cuda,
    Js,
    Py,
}

/// A stable code for each grammar, the key under which parse and query
/// results are named.
pub open spec fn lang_code(l: LangId) -> int {
    match l {
        LangId::Rust => 0,
        LangId::C => 1,
        LangId::Cpp => 2,
        LangId::Cuda => 3,
        LangId::Js => 4,
        LangId::Py => 5,
    }
}

/// The grammar registered for an extension, if any.
pub open spec fn lang_for_ext(ext: Seq<char>) -> Option<LangId> {
    if ext == "rs"@ {
        Some(LangId::Rust)
    } else if ext == "cpp"@ || ext == "hpp"@ {
        Some(LangId::Cpp)
    } else if ext == "c"@ || ext == "h"@ {
        Some(LangId::C)
    } else if ext == "js"@ {
        Some(LangId::Js)
    } else if ext == "py"@ {
        Some(LangId::Py)
    } else if ext == "cu"@ {
        Some(LangId::Cuda)
    } else {
        None
    }
}

/// The grammar registered for an extension, if any.
pub fn language_for_extension(ext: &str) -> (r: Option<LangId>)
    ensures
        r == lang_for_ext(ext@),
{
    if str_eq(ext, "rs") {
        Some(LangId::Rust)
    } else if str_eq(ext, "cpp") || str_eq(ext, "hpp") {
        Some(LangId::Cpp)
    } else if str_eq(ext, "c") || str_eq(ext, "h") {
        Some(LangId::C)
    } else if str_eq(ext, "js") {
        Some(LangId::Js)
    } else if str_eq(ext, "py") {
        Some(LangId::Py)
    } else if str_eq(ext, "cu") {
        Some(LangId::Cuda)
    } else {
        None
    }
}

/// The container-level query registered for an extension: patterns matching
/// type, namespace and module level declarations.
pub open spec fn container_query_spec(ext: Seq<char>) -> Option<Seq<char>> {
    if ext == "rs"@ {
        Some(
            "(struct_item) @chunk (impl_item) @chunk (mod_item) @chunk (enum_item) @chunk (trait_item) @chunk"@,
        )
    } else if ext == "py"@ {
        Some("(class_definition) @chunk"@)
    } else if ext == "js"@ {
        Some("(class_declaration) @chunk"@)
    } else if ext == "c"@ {
        Some("(struct_specifier) @chunk (union_specifier) @chunk (enum_specifier) @chunk"@)
    } else if ext == "cpp"@ || ext == "cu"@ {
        Some(
            "(class_specifier) @chunk (struct_specifier) @chunk (enum_specifier) @chunk (namespace_definition) @chunk"@,
        )
    } else if ext == "html"@ {
        Some("(element) @chunk"@)
    } else {
        None
    }
}

/// The function-level query registered for an extension: patterns matching
/// callable declarations.
pub open spec fn function_query_spec(ext: Seq<char>) -> Option<Seq<char>> {
    if ext == "rs"@ {
        Some("(function_item) @chunk"@)
    } else if ext == "py"@ {
        Some("(function_definition) @chunk"@)
    } else if ext == "js"@ {
        Some(
            "(function_declaration) @chunk (arrow_function) @chunk (method_definition) @chunk (variable_declaration) @chunk"@,
        )
    } else if ext == "c"@ {
        Some("(function_definition) @chunk (declaration (type_specifier) @type_decl) @chunk"@)
    } else if ext == "cpp"@ || ext == "cu"@ {
        Some(
            "(function_definition) @chunk (template_declaration) @chunk (declaration (type_specifier) @type_decl) @chunk"@,
        )
    } else {
        None
    }
}

/// The pair of queries registered for an extension, container-level first.
pub fn get_queries_from_extension(extension: &str) -> (r: (Option<String>, Option<String>))
    ensures
        r.0.deep_view() == container_query_spec(extension@),
        r.1.deep_view() == function_query_spec(extension@),
{
    if str_eq(extension, "rs") {
        (
            Some(
                String::from_str(
                    "(struct_item) @chunk (impl_item) @chunk (mod_item) @chunk (enum_item) @chunk (trait_item) @chunk",
                ),
            ),
            Some(String::from_str("(function_item) @chunk")),
        )
    } else if str_eq(extension, "py") {
        (
            Some(String::from_str("(class_definition) @chunk")),
            Some(String::from_str("(function_definition) @chunk")),
        )
    } else if str_eq(extension, "js") {
        (
            Some(String::from_str("(class_declaration) @chunk")),
            Some(
                String::from_str(
                    "(function_declaration) @chunk (arrow_function) @chunk (method_definition) @chunk (variable_declaration) @chunk",
                ),
            ),
        )
    } else if str_eq(extension, "c") {
        (
            Some(
                String::from_str(
                    "(struct_specifier) @chunk (union_specifier) @chunk (enum_specifier) @chunk",
                ),
            ),
            Some(
                String::from_str(
                    "(function_definition) @chunk (declaration (type_specifier) @type_decl) @chunk",
                ),
            ),
        )
    } else if str_eq(extension, "cpp") || str_eq(extension, "cu") {
        (
            Some(
                String::from_str(
                    "(class_specifier) @chunk (struct_specifier) @chunk (enum_specifier) @chunk (namespace_definition) @chunk",
                ),
            ),
            Some(
                String::from_str(
                    "(function_definition) @chunk (template_declaration) @chunk (declaration (type_specifier) @type_decl) @chunk",
                ),
            ),
        )
    } else if str_eq(extension, "html") {
        (Some(String::from_str("(element) @chunk")), None)
    } else {
        (None, None)
    }
}

} // verus!
