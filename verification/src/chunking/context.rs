//! Giving a chunk the name of its node and a line that names the node's
//! parent, so that the chunk can be read on its own.

use vstd::prelude::*;
use vstd::string::StringExecFns;
use vstd::utf8::{encode_utf8, is_char_boundary};
use super::preprocess::{node_text, text_slice};
use super::syntax::{sibling_after, subtree_end, NodeFacts, SyntaxTree};
use super::text::{chars_of, ends_with, has_suffix, is_text};
use super::types::{ChunkView, CodeChunk};

verus! {

/// A node of this kind holds the name of its parent: the kind is
/// `identifier` or `name`, or ends with `_name` or `_identifier`.
pub open spec fn is_name_kind(kind: Seq<char>) -> bool {
    ||| kind == "identifier"@
    ||| kind == "name"@
    ||| ends_with(kind, "_name"@)
    ||| ends_with(kind, "_identifier"@)
}

/// The first named node of a name kind among the node at `from` and its
/// later siblings before `end`.
pub open spec fn name_child_from(nodes: Seq<NodeFacts>, from: int, end: int) -> Option<int>
    decreases end - from,
{
    if from < 0 || from >= end || from >= nodes.len() {
        None
    } else if nodes[from].named && is_name_kind(nodes[from].kind) {
        Some(from)
    } else {
        name_child_from(nodes, sibling_after(nodes, from, end), end)
    }
}

/// The child that names the node at `at`: its first named child of a name
/// kind.
pub open spec fn name_child(nodes: Seq<NodeFacts>, at: int) -> Option<int> {
    name_child_from(nodes, at + 1, subtree_end(nodes, at))
}

/// The bytes `start..end` of the encoded `source` are a text of their own.
pub open spec fn slice_fits(source: Seq<char>, start: int, end: int) -> bool {
    let bytes = encode_utf8(source);
    &&& 0 <= start <= end <= bytes.len()
    &&& is_char_boundary(bytes, start)
    &&& is_char_boundary(bytes, end)
}

/// The name of the node at `at`: the text of the child that names it, where
/// it has such a child and the child's range fits the source.
pub open spec fn node_name(nodes: Seq<NodeFacts>, source: Seq<char>, at: int) -> Option<
    Seq<char>,
> {
    match name_child(nodes, at) {
        Some(child) => if slice_fits(
            source,
            nodes[child].start_byte as int,
            nodes[child].end_byte as int,
        ) {
            Some(text_slice(source, nodes[child].start_byte as int, nodes[child].end_byte as int))
        } else {
            None
        },
        None => None,
    }
}

/// The line that says which node a chunk lies in.
pub open spec fn banner(kind: Seq<char>, name: Seq<char>) -> Seq<char> {
    "// In "@ + kind + ": "@ + name + "\n"@
}

/// `chunk` with the name of the node at `node` added to its tag after a
/// colon, where the node has a name, and with a line that names the node at
/// `parent` put before its content, where there is such a node and it has a
/// name.
pub open spec fn annotated(
    chunk: ChunkView,
    nodes: Seq<NodeFacts>,
    source: Seq<char>,
    node: int,
    parent: Option<int>,
) -> ChunkView {
    ChunkView {
        content: match parent {
            Some(above) => match node_name(nodes, source, above) {
                Some(name) => banner(nodes[above].kind, name) + chunk.content,
                None => chunk.content,
            },
            None => chunk.content,
        },
        node_type: match node_name(nodes, source, node) {
            Some(name) => chunk.node_type + ":"@ + name,
            None => chunk.node_type,
        },
        start_line: chunk.start_line,
        end_line: chunk.end_line,
        path: chunk.path,
        language: chunk.language,
    }
}

/// Whether a node of kind `kind` holds a name.
pub fn names_its_parent(kind: &str) -> (naming: bool)
    ensures
        naming == is_name_kind(kind@),
{
    let label = chars_of(kind);
    is_text(&label, "identifier") || is_text(&label, "name") || has_suffix(&label, "_name")
        || has_suffix(&label, "_identifier")
}

/// Finds the child that names the node at `node`.
pub fn find_node_name(tree: &SyntaxTree, node: usize) -> (child: Option<usize>)
    ensures
        match child {
            Some(index) => name_child(tree@, node as int) == Some(index as int) && node < index
                < tree@.len(),
            None => name_child(tree@, node as int) is None,
        },
{
    if node >= tree.len() {
        return None;
    }
    let end = tree.subtree_end(node);
    let mut child: usize = node + 1;
    while child < end
        invariant
            node < child <= end <= tree@.len(),
            end == subtree_end(tree@, node as int),
            name_child(tree@, node as int) == name_child_from(tree@, child as int, end as int),
        decreases end - child,
    {
        let current = tree.node(child);
        if current.named && names_its_parent(current.kind.as_str()) {
            return Some(child);
        }
        let after = tree.subtree_end(child);
        child = if after < end {
            after
        } else {
            end
        };
    }
    None
}

/// The name of the node at `node`, if it has one.
pub fn name_of_node<'a>(tree: &SyntaxTree, source: &'a str, node: usize) -> (name: Option<&'a str>)
    ensures
        match name {
            Some(text) => node_name(tree@, source@, node as int) == Some(text@) && node
                < tree@.len(),
            None => node_name(tree@, source@, node as int) is None,
        },
{
    match find_node_name(tree, node) {
        Some(child) => {
            let named = tree.node(child);
            let size = source.as_bytes().len();
            if named.start_byte <= named.end_byte && named.end_byte <= size
                && source.is_char_boundary(named.start_byte) && source.is_char_boundary(
                named.end_byte,
            ) {
                Some(node_text(source, named.start_byte, named.end_byte))
            } else {
                None
            }
        },
        None => None,
    }
}

/// Adds to `chunk` what is known of the node at `node` that it came from:
/// the node's name to the tag, and a first line that names the node at
/// `parent_node` to the content. What cannot be found is left out.
pub fn add_chunk_context(
    chunk: &mut CodeChunk,
    tree: &SyntaxTree,
    node: usize,
    source: &str,
    parent_node: Option<usize>,
)
    ensures
        final(chunk)@ == annotated(old(chunk)@, tree@, source@, node as int, match parent_node {
            Some(above) => Some(above as int),
            None => None,
        }),
{
    match name_of_node(tree, source, node) {
        Some(name) => {
            chunk.node_type.append(":");
            chunk.node_type.append(name);
        },
        None => {},
    }
    match parent_node {
        Some(above) => {
            match name_of_node(tree, source, above) {
                Some(name) => {
                    let mut content = "// In ".to_owned();
                    content.append(tree.node(above).kind.as_str());
                    content.append(": ");
                    content.append(name);
                    content.append("\n");
                    content.append(chunk.content.as_str());
                    chunk.content = content;
                },
                None => {},
            }
        },
        None => {},
    }
}

} // verus!
