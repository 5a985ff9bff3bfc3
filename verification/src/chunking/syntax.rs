//! A syntax tree as a list of its nodes in document order, parents before
//! their children.
//!
//! Each node says how many nodes its subtree holds, itself included, so that
//! the subtree of the node at index `i` is the run of nodes from `i` on that is
//! that long, its first child, if it has one, is the node at `i + 1`, and the
//! sibling after a node is the node just past that node's subtree. Nothing is
//! asked of the numbers in a list: a subtree that would run past the end of the
//! list, or past the end of the subtree it lies in, is cut off there.

use vstd::prelude::*;
use super::boundary::{greatest, least};

verus! {

/// One node of a syntax tree.
#[derive(Debug, Clone, PartialEq, Eq)]
pub struct SyntaxNode {
    /// Kind label of the node.
    pub kind: String,
    /// Whether the node stands for a named rule of the grammar.
    pub named: bool,
    /// Offset in bytes of the node's first character in the source.
    pub start_byte: usize,
    /// Offset in bytes just after the node's last character.
    pub end_byte: usize,
    /// Line on which the node starts, counted from zero.
    pub start_row: usize,
    /// Column at which the node starts.
    pub start_column: usize,
    /// Line on which the node ends.
    pub end_row: usize,
    /// Column at which the node ends.
    pub end_column: usize,
    /// Number of nodes in the node's subtree, the node itself included.
    pub descendants: usize,
}

/// What a node is, as plain values.
pub struct NodeFacts {
    pub kind: Seq<char>,
    pub named: bool,
    pub start_byte: usize,
    pub end_byte: usize,
    pub start_row: usize,
    pub start_column: usize,
    pub end_row: usize,
    pub end_column: usize,
    pub descendants: usize,
}

impl View for SyntaxNode {
    type V = NodeFacts;

    open spec fn view(&self) -> NodeFacts {
        NodeFacts {
            kind: self.kind@,
            named: self.named,
            start_byte: self.start_byte,
            end_byte: self.end_byte,
            start_row: self.start_row,
            start_column: self.start_column,
            end_row: self.end_row,
            end_column: self.end_column,
            descendants: self.descendants,
        }
    }
}

/// A syntax tree: its nodes in document order.
#[derive(Debug, Clone, PartialEq, Eq)]
pub struct SyntaxTree {
    pub nodes: Vec<SyntaxNode>,
}

impl View for SyntaxTree {
    type V = Seq<NodeFacts>;

    open spec fn view(&self) -> Seq<NodeFacts> {
        self.nodes@.map_values(|node: SyntaxNode| node@)
    }
}

/// A node that a pattern captured, as the plain values that tell it from
/// other nodes.
#[derive(Debug, Clone, PartialEq, Eq)]
pub struct Capture {
    /// Kind label of the node.
    pub kind: String,
    /// Offset in bytes of the node's first character.
    pub start_byte: usize,
    /// Offset in bytes just after the node's last character.
    pub end_byte: usize,
}

/// What a capture is, as plain values.
pub struct CaptureFacts {
    pub kind: Seq<char>,
    pub start_byte: usize,
    pub end_byte: usize,
}

impl View for Capture {
    type V = CaptureFacts;

    open spec fn view(&self) -> CaptureFacts {
        CaptureFacts { kind: self.kind@, start_byte: self.start_byte, end_byte: self.end_byte }
    }
}

/// The captures of a list, as plain values.
pub open spec fn capture_views(found: Seq<Capture>) -> Seq<CaptureFacts> {
    found.map_values(|capture: Capture| capture@)
}

/// The node is the one that the capture tells of: it has the capture's kind
/// and byte range.
pub open spec fn is_captured(node: NodeFacts, capture: CaptureFacts) -> bool {
    &&& node.kind == capture.kind
    &&& node.start_byte == capture.start_byte
    &&& node.end_byte == capture.end_byte
}

/// Index of the first node from `from` on that `capture` tells of.
pub open spec fn locate_from(nodes: Seq<NodeFacts>, capture: CaptureFacts, from: int) -> Option<
    int,
>
    decreases nodes.len() - from,
{
    if from < 0 || from >= nodes.len() {
        None
    } else if is_captured(nodes[from], capture) {
        Some(from)
    } else {
        locate_from(nodes, capture, from + 1)
    }
}

/// Index just past the subtree of the node at `at`.
pub open spec fn subtree_end(nodes: Seq<NodeFacts>, at: int) -> int {
    if 0 <= at < nodes.len() {
        least(at + greatest(nodes[at].descendants as int, 1), nodes.len() as int)
    } else {
        at + 1
    }
}

/// Index of the node that follows the subtree of the node at `at` among the
/// nodes before `end`, or `end`.
pub open spec fn sibling_after(nodes: Seq<NodeFacts>, at: int, end: int) -> int {
    least(subtree_end(nodes, at), end)
}

/// The nodes at `from` and its later siblings, all before `end`.
pub open spec fn siblings_from(nodes: Seq<NodeFacts>, from: int, end: int) -> Seq<int>
    decreases end - from,
{
    if from < 0 || from >= end || from >= nodes.len() {
        Seq::empty()
    } else {
        seq![from] + siblings_from(nodes, sibling_after(nodes, from, end), end)
    }
}

/// Whether the node at `from` or one of its later siblings before `end` is
/// named.
pub open spec fn any_named_from(nodes: Seq<NodeFacts>, from: int, end: int) -> bool
    decreases end - from,
{
    if from < 0 || from >= end || from >= nodes.len() {
        false
    } else if nodes[from].named {
        true
    } else {
        any_named_from(nodes, sibling_after(nodes, from, end), end)
    }
}

/// Whether the node at `at` has a named child.
pub open spec fn has_named_child(nodes: Seq<NodeFacts>, at: int) -> bool {
    any_named_from(nodes, at + 1, subtree_end(nodes, at))
}

/// The nearest node at or before `from` whose subtree holds the node at
/// `at`.
pub open spec fn enclosing_from(nodes: Seq<NodeFacts>, at: int, from: int) -> Option<int>
    decreases from + 1,
{
    if from < 0 {
        None
    } else if subtree_end(nodes, from) > at {
        Some(from)
    } else {
        enclosing_from(nodes, at, from - 1)
    }
}

/// The parent of the node at `at`: the nearest node before it whose subtree
/// holds it. The first node has none.
pub open spec fn parent_of(nodes: Seq<NodeFacts>, at: int) -> Option<int> {
    enclosing_from(nodes, at, at - 1)
}

/// No subtree holds a node that the tree does not have.
pub proof fn lemma_outside_has_no_parent(nodes: Seq<NodeFacts>, at: int, from: int)
    requires
        at >= nodes.len(),
        from < at,
    ensures
        enclosing_from(nodes, at, from) is None,
    decreases from + 1,
{
    if from >= 0 {
        lemma_outside_has_no_parent(nodes, at, from - 1);
    }
}

impl SyntaxTree {
    /// Number of nodes.
    pub fn len(&self) -> (count: usize)
        ensures
            count == self@.len(),
    {
        self.nodes.len()
    }

    /// The node at `at`.
    pub fn node(&self, at: usize) -> (node: &SyntaxNode)
        requires
            at < self@.len(),
        ensures
            node@ == self@[at as int],
    {
        &self.nodes[at]
    }

    /// Index just past the subtree of the node at `at`.
    pub fn subtree_end(&self, at: usize) -> (end: usize)
        requires
            at < self@.len(),
        ensures
            end == subtree_end(self@, at as int),
            at < end <= self@.len(),
    {
        let span = self.nodes[at].descendants;
        let room = self.nodes.len() - at;
        if span < 1 {
            at + 1
        } else if span < room {
            at + span
        } else {
            self.nodes.len()
        }
    }

    /// Whether the node at `at` has a named child; a node that the tree does
    /// not have has none.
    pub fn has_named_child(&self, at: usize) -> (found: bool)
        ensures
            found == has_named_child(self@, at as int),
    {
        if at >= self.nodes.len() {
            return false;
        }
        let end = self.subtree_end(at);
        let mut child: usize = at + 1;
        while child < end
            invariant
                at < child <= end <= self@.len(),
                end == subtree_end(self@, at as int),
                any_named_from(self@, at + 1, end as int) == any_named_from(
                    self@,
                    child as int,
                    end as int,
                ),
            decreases end - child,
        {
            if self.nodes[child].named {
                return true;
            }
            let next = self.subtree_end(child);
            child = if next < end {
                next
            } else {
                end
            };
        }
        false
    }

    /// Index of the first node that `capture` tells of, if there is one.
    pub fn locate(&self, capture: &Capture) -> (found: Option<usize>)
        ensures
            match found {
                Some(index) => locate_from(self@, capture@, 0) == Some(index as int) && index
                    < self@.len(),
                None => locate_from(self@, capture@, 0) is None,
            },
    {
        let mut at: usize = 0;
        while at < self.nodes.len()
            invariant
                at <= self@.len(),
                locate_from(self@, capture@, 0) == locate_from(self@, capture@, at as int),
            decreases self@.len() - at,
        {
            let node = &self.nodes[at];
            if node.start_byte == capture.start_byte && node.end_byte == capture.end_byte
                && node.kind == capture.kind {
                return Some(at);
            }
            at += 1;
        }
        None
    }

    /// The parent of the node at `at`, if it has one; a node that the tree
    /// does not have has none.
    pub fn parent(&self, at: usize) -> (parent: Option<usize>)
        ensures
            match parent {
                Some(index) => parent_of(self@, at as int) == Some(index as int) && index < at
                    < self@.len(),
                None => parent_of(self@, at as int) is None,
            },
    {
        if at >= self.nodes.len() {
            proof {
                lemma_outside_has_no_parent(self@, at as int, at - 1);
            }
            return None;
        }
        let mut from: usize = at;
        while from > 0
            invariant
                from <= at < self@.len(),
                parent_of(self@, at as int) == enclosing_from(self@, at as int, from - 1),
            decreases from,
        {
            from -= 1;
            if self.subtree_end(from) > at {
                return Some(from);
            }
        }
        None
    }
}

} // verus!
