//! What this library takes on trust from the tree-sitter parsing library and
//! its grammars. Nothing here is proved: each item says what is believed of
//! the code it stands for.

use vstd::prelude::*;
use tree_sitter::StreamingIterator;
use crate::chunking::preprocess::node_text;
use crate::chunking::syntax::{capture_views, Capture, CaptureFacts, NodeFacts, SyntaxNode};

verus! {

/// `tree_sitter::Language`, a grammar. Nothing is known of a value.
#[verifier::external_type_specification]
#[verifier::external_body]
pub struct ExLanguage(tree_sitter::Language);

/// `tree_sitter::Parser`. Nothing is known of a value.
#[verifier::external_type_specification]
#[verifier::external_body]
pub struct ExParser(tree_sitter::Parser);

/// `tree_sitter::Tree`, a parsed syntax tree. Its nodes are `tree_nodes`.
#[verifier::external_type_specification]
#[verifier::external_body]
pub struct ExTree(tree_sitter::Tree);

/// `tree_sitter::Query`, a compiled pattern. What it captures is
/// `query_captures`.
#[verifier::external_type_specification]
#[verifier::external_body]
pub struct ExQuery(tree_sitter::Query);

/// `tree_sitter::QueryError`, why a pattern did not compile.
#[verifier::external_type_specification]
#[verifier::external_body]
pub struct ExQueryError(tree_sitter::QueryError);

/// `tree_sitter::LanguageError`, why a parser did not take a grammar.
#[verifier::external_type_specification]
#[verifier::external_body]
pub struct ExLanguageError(tree_sitter::LanguageError);

/// The nodes of a tree in the order in which `TreeCursor::goto_descendant`
/// numbers them from the root, each with what its accessors report.
pub uninterp spec fn tree_nodes(tree: tree_sitter::Tree) -> Seq<NodeFacts>;

/// What `tree_sitter::Query::new` gives for a grammar and the text of a
/// pattern: the compiled pattern, or nothing where the pattern cannot be
/// compiled for the grammar.
pub uninterp spec fn compiled(language: tree_sitter::Language, pattern: Seq<char>) -> Option<
    tree_sitter::Query,
>;

/// What `tree_sitter::QueryCursor::matches` gives for a compiled pattern, run
/// from the node of a tree that is numbered `node`, with `source` as the text:
/// every capture of every match, in the order in which they come, each as its
/// kind and byte range.
pub uninterp spec fn query_captures(
    query: tree_sitter::Query,
    tree: tree_sitter::Tree,
    node: usize,
    source: Seq<char>,
) -> Seq<CaptureFacts>;

/// `tree_sitter::Parser::new` makes a parser; nothing is claimed of it.
pub assume_specification[ tree_sitter::Parser::new ]() -> (parser: tree_sitter::Parser)
;

/// `tree_sitter::Parser::set_language` gives the parser a grammar or says
/// why it cannot; nothing is claimed of which.
pub assume_specification[ tree_sitter::Parser::set_language ](
    parser: &mut tree_sitter::Parser,
    language: &tree_sitter::Language,
) -> (outcome: Result<(), tree_sitter::LanguageError>)
;

/// `tree_sitter::Query::new` compiles a pattern for a grammar or says why it
/// cannot. Which of the two, and the compiled pattern, depend on the grammar
/// and the text of the pattern alone: they are `compiled`. Nothing is claimed
/// of the error.
pub assume_specification[ tree_sitter::Query::new ](
    language: &tree_sitter::Language,
    source: &str,
) -> (outcome: Result<tree_sitter::Query, tree_sitter::QueryError>)
    ensures
        match outcome {
            Ok(query) => compiled(*language, source@) == Some(query),
            Err(_) => compiled(*language, source@) is None,
        },
;

/// The grammar of Rust, `tree_sitter_rust::LANGUAGE`, made a `Language`.
#[verifier::external_body]
pub(crate) fn rust_grammar() -> (language: tree_sitter::Language) {
    tree_sitter_rust::LANGUAGE.into()
}

/// The grammar of Go, `tree_sitter_go::LANGUAGE`, made a `Language`.
#[verifier::external_body]
pub(crate) fn go_grammar() -> (language: tree_sitter::Language) {
    tree_sitter_go::LANGUAGE.into()
}

/// The grammar of Python, `tree_sitter_python::LANGUAGE`, made a `Language`.
#[verifier::external_body]
pub(crate) fn python_grammar() -> (language: tree_sitter::Language) {
    tree_sitter_python::LANGUAGE.into()
}

/// The grammar of JavaScript, `tree_sitter_javascript::LANGUAGE`, made a
/// `Language`.
#[verifier::external_body]
pub(crate) fn javascript_grammar() -> (language: tree_sitter::Language) {
    tree_sitter_javascript::LANGUAGE.into()
}

/// The grammar of TypeScript, `tree_sitter_typescript::LANGUAGE_TYPESCRIPT`,
/// made a `Language`.
#[verifier::external_body]
pub(crate) fn typescript_grammar() -> (language: tree_sitter::Language) {
    tree_sitter_typescript::LANGUAGE_TYPESCRIPT.into()
}

/// The grammar of TSX, `tree_sitter_typescript::LANGUAGE_TSX`, made a
/// `Language`.
#[verifier::external_body]
pub(crate) fn tsx_grammar() -> (language: tree_sitter::Language) {
    tree_sitter_typescript::LANGUAGE_TSX.into()
}

/// `tree_sitter::Parser::parse` on `source`, with no earlier tree. It gives
/// a tree, or none where the parser has no grammar; nothing is claimed of
/// which.
#[verifier::external_body]
pub(crate) fn parse_text(parser: &mut tree_sitter::Parser, source: &str) -> (tree: Option<
    tree_sitter::Tree,
>) {
    parser.parse(source, None)
}

/// `tree_sitter::Node::descendant_count` of the root of `tree`: how many
/// nodes the tree has, the root included.
#[verifier::external_body]
pub(crate) fn node_count(tree: &tree_sitter::Tree) -> (count: usize)
    ensures
        count == tree_nodes(*tree).len(),
{
    tree.root_node().descendant_count()
}

/// `tree_sitter::TreeCursor::goto_descendant` from the root of `tree` to the
/// node numbered `index`, and that node as plain values: its kind, whether it
/// is named, its byte range, its start and end positions, and the number of
/// nodes in its subtree.
#[verifier::external_body]
pub(crate) fn node_at(tree: &tree_sitter::Tree, index: usize) -> (node: SyntaxNode)
    requires
        index < tree_nodes(*tree).len(),
    ensures
        node@ == tree_nodes(*tree)[index as int],
{
    let mut cursor = tree.walk();
    cursor.goto_descendant(index);
    let node = cursor.node();
    SyntaxNode {
        kind: node.kind().to_string(),
        named: node.is_named(),
        start_byte: node.start_byte(),
        end_byte: node.end_byte(),
        start_row: node.start_position().row,
        start_column: node.start_position().column,
        end_row: node.end_position().row,
        end_column: node.end_position().column,
        descendants: node.descendant_count(),
    }
}

/// `tree_sitter::QueryCursor::matches` of `query` on the node of `tree`
/// numbered `node`, which the tree must have, with `source` as the text, and
/// every capture of every match in the order in which they come, each as its
/// kind and byte range. What comes depends on the pattern, the tree, the node
/// and the text alone: it is `query_captures`. Where the pattern asks for the
/// text of a node, it is given `node_text`, which is empty for a range that
/// does not fit the source.
#[verifier::external_body]
pub(crate) fn run_query(
    query: &tree_sitter::Query,
    tree: &tree_sitter::Tree,
    node: usize,
    source: &str,
) -> (found: Vec<Capture>)
    requires
        node < tree_nodes(*tree).len(),
    ensures
        capture_views(found@) == query_captures(*query, *tree, node, source@),
{
    let text = |at: tree_sitter::Node| {
        std::iter::once(node_text(source, at.start_byte(), at.end_byte()).as_bytes())
    };
    let mut walker = tree.walk();
    walker.goto_descendant(node);
    let mut cursor = tree_sitter::QueryCursor::new();
    let mut matches = cursor.matches(query, walker.node(), text);
    let mut found = Vec::new();
    while let Some(hit) = matches.next() {
        for capture in hit.captures() {
            let (kind, range) = (capture.node.kind().to_string(), capture.node.byte_range());
            found.push(Capture { kind, start_byte: range.start, end_byte: range.end });
        }
    }
    found
}

} // verus!
