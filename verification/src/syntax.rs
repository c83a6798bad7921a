//! Syntax trees and tree patterns, as `tree-sitter` and its grammars provide
//! them. Values of the engine's types pass through the library unopened; what
//! the library reads of a match comes out as plain numbers and names.

use crate::languages::LangId;
use vstd::prelude::*;

verus! {

/// `tree_sitter::Language`, the grammar of a language.
#[verifier::external_type_specification]
#[verifier::external_body]
pub struct ExLanguage(tree_sitter::Language);

/// `tree_sitter::Tree`, the syntax tree of a text.
#[verifier::external_type_specification]
#[verifier::external_body]
pub struct ExTree(tree_sitter::Tree);

/// `tree_sitter::Query`, a compiled set of tree patterns.
#[verifier::external_type_specification]
#[verifier::external_body]
pub struct ExQuery(tree_sitter::Query);

/// `tree_sitter::QueryError`, the reason why a pattern text does not compile.
#[verifier::external_type_specification]
#[verifier::external_body]
pub struct ExQueryError(tree_sitter::QueryError);

/// The part of a text that a syntax node covers: bytes `start_byte..end_byte`,
/// from row `start_row` to row `end_row` (rows count from 0).
#[derive(Debug, Clone, Copy, PartialEq, Eq, Structural)]
pub struct Span {
    pub start_byte: usize,
    pub end_byte: usize,
    pub start_row: usize,
    pub end_row: usize,
}

/// One capture of a structural match: the name of the capture slot and the
/// span of the node bound to it.
#[derive(Debug)]
pub struct RawCapture {
    pub name: String,
    pub span: Span,
}

/// The mathematical value of a `RawCapture`.
pub ghost struct RawCaptureModel {
    pub name: Seq<char>,
    pub span: Span,
}

impl View for RawCapture {
    type V = RawCaptureModel;

    open spec fn view(&self) -> RawCaptureModel {
        RawCaptureModel { name: self.name@, span: self.span }
    }
}

/// The models of the captures of one match, one for one.
pub open spec fn capture_models(captures: Seq<RawCapture>) -> Seq<RawCaptureModel> {
    Seq::new(captures.len(), |i: int| captures[i]@)
}

/// The models of the matches of one pattern, one for one.
pub open spec fn match_models(matches: Seq<Vec<RawCapture>>) -> Seq<Seq<RawCaptureModel>> {
    Seq::new(matches.len(), |i: int| capture_models(matches[i]@))
}

/// The grammar of a language, as its grammar crate hands it out.
pub uninterp spec fn grammar_of(lang: LangId) -> tree_sitter::Language;

/// What `tree_sitter::Parser::parse` makes of `src` with a fresh parser set to
/// `language`.
pub uninterp spec fn parsed(language: tree_sitter::Language, src: Seq<u8>) -> Option<
    tree_sitter::Tree,
>;

/// What `tree_sitter::Node::has_error` says of the root of `tree`.
pub uninterp spec fn holds_syntax_error(tree: tree_sitter::Tree) -> bool;

/// The span of the root node of `tree`.
pub uninterp spec fn root_span(tree: tree_sitter::Tree) -> Span;

/// What `tree_sitter::Query::new` makes of the pattern text `source` for
/// `language`, or `None` where it refuses the text.
pub uninterp spec fn compiled_query(language: tree_sitter::Language, source: Seq<char>) -> Option<
    tree_sitter::Query,
>;

/// The matches that a cursor finds for `query` from the root of `tree`, in the
/// order in which it finds them, each with its captures in their order.
pub uninterp spec fn query_matches(
    query: tree_sitter::Query,
    tree: tree_sitter::Tree,
    src: Seq<u8>,
) -> Seq<Seq<RawCaptureModel>>;

/// `tree_sitter_javascript::language`.
#[verifier::external_body]
pub(crate) fn javascript_grammar() -> (r: tree_sitter::Language)
    ensures
        r == grammar_of(LangId::JavaScript),
{
    tree_sitter_javascript::language()
}

/// `tree_sitter_typescript::language_typescript`.
#[verifier::external_body]
pub(crate) fn typescript_grammar() -> (r: tree_sitter::Language)
    ensures
        r == grammar_of(LangId::TypeScript),
{
    tree_sitter_typescript::language_typescript()
}

/// `tree_sitter_python::language`.
#[verifier::external_body]
pub(crate) fn python_grammar() -> (r: tree_sitter::Language)
    ensures
        r == grammar_of(LangId::Python),
{
    tree_sitter_python::language()
}

/// `tree_sitter_c_sharp::language`.
#[verifier::external_body]
pub(crate) fn csharp_grammar() -> (r: tree_sitter::Language)
    ensures
        r == grammar_of(LangId::CSharp),
{
    tree_sitter_c_sharp::language()
}

/// `tree_sitter_rust::language`.
#[verifier::external_body]
pub(crate) fn rust_grammar() -> (r: tree_sitter::Language)
    ensures
        r == grammar_of(LangId::Rust),
{
    tree_sitter_rust::language()
}

/// `tree_sitter_go::language`.
#[verifier::external_body]
pub(crate) fn go_grammar() -> (r: tree_sitter::Language)
    ensures
        r == grammar_of(LangId::Go),
{
    tree_sitter_go::language()
}

/// `tree_sitter_java::language`.
#[verifier::external_body]
pub(crate) fn java_grammar() -> (r: tree_sitter::Language)
    ensures
        r == grammar_of(LangId::Java),
{
    tree_sitter_java::language()
}

/// `tree_sitter::Parser::parse` on a fresh parser that `set_language` has
/// given `language`. The tree depends on the grammar and the bytes alone, so
/// it is named by `parsed`. No tree comes back where the parser refuses the
/// grammar's version or gives up; a text with syntax errors still has a tree.
#[verifier::external_body]
pub(crate) fn parse_tree(language: &tree_sitter::Language, src: &[u8]) -> (r: Option<
    tree_sitter::Tree,
>)
    ensures
        r == parsed(*language, src@),
{
    let mut parser = tree_sitter::Parser::new();
    parser.set_language(language).ok()?;
    parser.parse(src, None)
}

/// `tree_sitter::Node::has_error` on `tree_sitter::Tree::root_node`: whether
/// the text failed to parse somewhere.
#[verifier::external_body]
pub(crate) fn tree_has_error(tree: &tree_sitter::Tree) -> (r: bool)
    ensures
        r == holds_syntax_error(*tree),
{
    tree.root_node().has_error()
}

/// `tree_sitter::Tree::root_node`, of which `Node::start_byte`, `end_byte`,
/// `start_position` and `end_position` give the byte range and the rows.
#[verifier::external_body]
pub(crate) fn tree_root_span(tree: &tree_sitter::Tree) -> (r: Span)
    ensures
        r == root_span(*tree),
{
    let node = tree.root_node();
    Span {
        start_byte: node.start_byte(),
        end_byte: node.end_byte(),
        start_row: node.start_position().row,
        end_row: node.end_position().row,
    }
}

/// `tree_sitter::Query::new`. Whether a pattern text compiles depends on the
/// grammar and the text alone, so the outcome is named by `compiled_query`.
#[verifier::external_body]
pub(crate) fn compile_query(language: &tree_sitter::Language, source: &str) -> (r: Result<
    tree_sitter::Query,
    tree_sitter::QueryError,
>)
    ensures
        match r {
            Ok(query) => compiled_query(*language, source@) == Some(query),
            Err(_) => compiled_query(*language, source@) is None,
        },
{
    tree_sitter::Query::new(language, source)
}

/// The message that `tree_sitter::QueryError` displays. Nothing is claimed
/// about its wording.
#[verifier::external_body]
pub(crate) fn query_error_text(err: &tree_sitter::QueryError) -> String {
    err.to_string()
}

/// `tree_sitter::QueryCursor::matches` with a fresh cursor, from the root of
/// `tree`, with `src` as the text that the pattern's own text predicates read.
/// Every match is handed out as the list of its captures: the name that
/// `Query::capture_names` gives the capture's index, and the span of its node.
/// The tree has to come from `src`, and the query from the same grammar.
#[verifier::external_body]
pub(crate) fn run_query(query: &tree_sitter::Query, tree: &tree_sitter::Tree, src: &[u8]) -> (r:
    Vec<Vec<RawCapture>>)
    requires
        exists|language: tree_sitter::Language, source: Seq<char>|
            parsed(language, src@) == Some(*tree) && compiled_query(language, source) == Some(
                *query,
            ),
    ensures
        match_models(r@) == query_matches(*query, *tree, src@),
{
    let names = query.capture_names();
    let mut cursor = tree_sitter::QueryCursor::new();
    let span = |n: tree_sitter::Node| Span {
        start_byte: n.start_byte(),
        end_byte: n.end_byte(),
        start_row: n.start_position().row,
        end_row: n.end_position().row,
    };
    let capture = |c: &tree_sitter::QueryCapture| RawCapture {
        name: names[c.index as usize].to_string(),
        span: span(c.node),
    };
    let found = cursor.matches(query, tree.root_node(), src);
    found.map(|m| m.captures.iter().map(capture).collect()).collect()
}

} // verus!
