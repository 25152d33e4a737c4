//! Trusted layer over the grammar-query engine.
//!
//! Parsing source text and running structural pattern queries over it are
//! delegated to the tree-sitter crates.  The engine is deterministic: what
//! a query matches is a function of the grammar, the query text and the
//! source bytes alone (no clock, no randomness, no configuration is
//! consulted), so its two results are given names that the extractor's
//! contracts speak of exactly.
use tree_sitter::StreamingIterator;
use vstd::prelude::*;

use crate::symbols::LangId;

verus! {

/// One capture of one pattern match, as plain data: the capture slot it
/// fills, the byte span of the captured node, and the node's starting row.
#[derive(Clone, Copy, PartialEq, Eq, Structural, Debug)]
pub struct TsCapture {
    pub index: u32,
    pub start: usize,
    pub end: usize,
    pub row: usize,
}

/// The slot number that the grammar engine assigns to a capture name in a
/// query, or `None` when the query does not compile under the language's
/// grammar or does not bind that name.  A function of its arguments alone.
pub uninterp spec fn ts_slot_of(lang: LangId, query: Seq<char>, capture: Seq<char>) -> Option<u32>;

/// The matches that a pattern query yields over the parse of a byte
/// string, in discovery order, each as the plain data of its captures in
/// capture order; `None` when the grammar is unusable, parsing fails or
/// the query does not compile.  A function of its arguments alone.
pub uninterp spec fn ts_captures_of(lang: LangId, query: Seq<char>, source: Seq<u8>) -> Option<
    Seq<Seq<TsCapture>>,
>;

#[verifier::external_type_specification]
#[verifier::external_body]
pub struct ExLanguage(tree_sitter::Language);

#[verifier::external_type_specification]
#[verifier::external_body]
pub struct ExQueryCapture<'tree>(tree_sitter::QueryCapture<'tree>);

/// Relies on tree_sitter::Node::start_byte, Node::end_byte and
/// Node::start_position: one capture handed out as plain data.
#[verifier::external_body]
fn ts_capture_data(c: &tree_sitter::QueryCapture) -> TsCapture {
    TsCapture { index: c.index, start: c.node.start_byte(), end: c.node.end_byte(), row: c.node.start_position().row }
}

/// Relies on tree_sitter_python::LANGUAGE: the Python grammar.
#[verifier::external_body]
pub(crate) fn ts_language_python() -> tree_sitter::Language {
    tree_sitter::Language::new(tree_sitter_python::LANGUAGE)
}

/// Relies on tree_sitter_rust::LANGUAGE: the Rust grammar.
#[verifier::external_body]
pub(crate) fn ts_language_rust() -> tree_sitter::Language {
    tree_sitter::Language::new(tree_sitter_rust::LANGUAGE)
}

/// Relies on tree_sitter::Query::new and Query::capture_index_for_name:
/// compiles the query against the language's grammar and looks the capture
/// name's slot up.  Both are functions of the grammar and the given text,
/// which `ts_slot_of` names.
#[verifier::external_body]
pub(crate) fn ts_query_slot(lang: LangId, query_src: &str, cap: &str) -> (r: Option<u32>)
    ensures
        r == ts_slot_of(lang, query_src@, cap@),
{
    let language = match lang {
        LangId::Python => ts_language_python(),
        LangId::Rust => ts_language_rust(),
    };
    let query = tree_sitter::Query::new(&language, query_src).ok()?;
    query.capture_index_for_name(cap)
}

/// Relies on tree_sitter::Parser::parse (with Parser::new and
/// set_language), Query::new and QueryCursor::matches: parses the bytes
/// with the language's grammar and streams every match of the query, each
/// handed out as the plain data of its captures.  The whole run is a
/// function of the grammar, the query text and the bytes, which
/// `ts_captures_of` names.
#[verifier::external_body]
pub(crate) fn ts_query_matches(lang: LangId, query_src: &str, source: &[u8]) -> (r: Option<
    Vec<Vec<TsCapture>>,
>)
    ensures
        r is Some <==> ts_captures_of(lang, query_src@, source@) is Some,
        r matches Some(v) ==> (ts_captures_of(lang, query_src@, source@) matches Some(ms) && ms
            == Seq::new(v@.len(), |i: int| v@[i]@)),
{
    let language = match lang {
        LangId::Python => ts_language_python(),
        LangId::Rust => ts_language_rust(),
    };
    let mut parser = tree_sitter::Parser::new();
    parser.set_language(&language).ok()?;
    let tree = parser.parse(source, None)?;
    let query = tree_sitter::Query::new(&language, query_src).ok()?;
    let mut cursor = tree_sitter::QueryCursor::new();
    let mut out: Vec<Vec<TsCapture>> = Vec::new();
    let mut it = cursor.matches(&query, tree.root_node(), source);
    while let Some(m) = it.next() {
        out.push(m.captures().iter().map(ts_capture_data).collect());
    }
    Some(out)
}

} // verus!
