//! From what a pattern captures to the nodes of the tree: each capture is
//! found again among the nodes, and where the query is repeated from a
//! captured container, what it captures there is put before that container.

use vstd::prelude::*;
use crate::grammar::query_captures;
use super::syntax::{
    capture_views, locate_from, subtree_end, Capture, CaptureFacts, NodeFacts, SyntaxTree,
};
use super::tiers::{are_nodes, index_views, is_descended};

verus! {

/// The nodes that the captures tell of, in the order of the captures: for
/// each capture the first node of its kind and byte range, and nothing for
/// a capture that tells of no node.
pub open spec fn located_of(nodes: Seq<NodeFacts>, found: Seq<CaptureFacts>) -> Seq<int>
    decreases found.len(),
{
    if found.len() == 0 {
        Seq::empty()
    } else {
        let before = located_of(nodes, found.drop_last());
        match locate_from(nodes, found.last(), 0) {
            Some(at) => before.push(at),
            None => before,
        }
    }
}

/// The units that `query` gives from the node at `node`, for the captures
/// `found` that it made there: the nodes that the captures tell of, in the
/// order of the captures; and before each node from which the query is
/// repeated, the units that it gives from that node.
pub open spec fn units_under(
    nodes: Seq<NodeFacts>,
    query: tree_sitter::Query,
    tree: tree_sitter::Tree,
    source: Seq<char>,
    node: int,
    found: Seq<CaptureFacts>,
) -> Seq<int>
    decreases subtree_end(nodes, node) - node, found.len(),
{
    if found.len() == 0 {
        Seq::empty()
    } else {
        let before = units_under(nodes, query, tree, source, node, found.drop_last());
        match locate_from(nodes, found.last(), 0) {
            Some(at) => if is_descended(nodes, node, at) {
                before + units_under(
                    nodes,
                    query,
                    tree,
                    source,
                    at,
                    query_captures(query, tree, at as usize, source),
                ) + seq![at]
            } else {
                before.push(at)
            },
            None => before,
        }
    }
}

/// The units that `query` gives from the node at `node` of `tree`; none
/// from a node that the tree does not have.
pub open spec fn unit_nodes(
    nodes: Seq<NodeFacts>,
    query: tree_sitter::Query,
    tree: tree_sitter::Tree,
    source: Seq<char>,
    node: int,
) -> Seq<int> {
    if 0 <= node < nodes.len() {
        units_under(
            nodes,
            query,
            tree,
            source,
            node,
            query_captures(query, tree, node as usize, source),
        )
    } else {
        Seq::empty()
    }
}

/// The blocks that `query` gives from the node at `node` of `tree`: the
/// nodes that its captures tell of; none from a node that the tree does not
/// have.
pub open spec fn block_nodes(
    nodes: Seq<NodeFacts>,
    query: tree_sitter::Query,
    tree: tree_sitter::Tree,
    source: Seq<char>,
    node: int,
) -> Seq<int> {
    if 0 <= node < nodes.len() {
        located_of(nodes, query_captures(query, tree, node as usize, source))
    } else {
        Seq::empty()
    }
}

/// No capture of `found` tells of a node from which a query from the node
/// at `node` is repeated.
pub open spec fn has_no_container(
    nodes: Seq<NodeFacts>,
    node: int,
    found: Seq<CaptureFacts>,
) -> bool {
    forall|i: int|
        0 <= i < found.len() ==> match locate_from(nodes, #[trigger] found[i], 0) {
            Some(at) => !is_descended(nodes, node, at),
            None => true,
        }
}

/// Where no captured node is a container below the node that was queried,
/// the units are the nodes that the captures tell of, in the order of the
/// captures.
pub proof fn lemma_units_without_containers(
    nodes: Seq<NodeFacts>,
    query: tree_sitter::Query,
    tree: tree_sitter::Tree,
    source: Seq<char>,
    node: int,
    found: Seq<CaptureFacts>,
)
    requires
        has_no_container(nodes, node, found),
    ensures
        units_under(nodes, query, tree, source, node, found) == located_of(nodes, found),
    decreases found.len(),
{
    if found.len() > 0 {
        let before = found.drop_last();
        assert forall|i: int| 0 <= i < before.len() implies match locate_from(
            nodes,
            #[trigger] before[i],
            0,
        ) {
            Some(at) => !is_descended(nodes, node, at),
            None => true,
        } by {
            assert(before[i] == found[i]);
        }
        lemma_units_without_containers(nodes, query, tree, source, node, before);
        assert(found.last() == found[found.len() - 1]);
    }
}

/// A captured container whose members hold no container of their own gives
/// its members first, in the order in which the query captures them from
/// the container, and then itself.
pub proof fn lemma_units_of_container(
    nodes: Seq<NodeFacts>,
    query: tree_sitter::Query,
    tree: tree_sitter::Tree,
    source: Seq<char>,
    node: int,
    capture: CaptureFacts,
    at: int,
)
    requires
        locate_from(nodes, capture, 0) == Some(at),
        is_descended(nodes, node, at),
        has_no_container(nodes, at, query_captures(query, tree, at as usize, source)),
    ensures
        units_under(nodes, query, tree, source, node, seq![capture]) == located_of(
            nodes,
            query_captures(query, tree, at as usize, source),
        ).push(at),
{
    let members = query_captures(query, tree, at as usize, source);
    lemma_units_without_containers(nodes, query, tree, source, at, members);
    let found = seq![capture];
    let before = units_under(nodes, query, tree, source, node, found.drop_last());
    assert(found.drop_last().len() == 0);
    assert(before =~= Seq::<int>::empty());
    assert(found.last() == capture);
    assert(units_under(nodes, query, tree, source, node, found) == before + units_under(
        nodes,
        query,
        tree,
        source,
        at,
        members,
    ) + seq![at]);
    assert(before + located_of(nodes, members) + seq![at] =~= located_of(nodes, members).push(at));
}

/// The nodes that the captures `found` tell of, as indices, in the order of
/// the captures.
pub fn locate_all(tree: &SyntaxTree, found: &Vec<Capture>) -> (located: Vec<usize>)
    ensures
        index_views(located@) == located_of(tree@, capture_views(found@)),
        are_nodes(tree@, located@),
{
    let mut located: Vec<usize> = Vec::new();
    let mut k: usize = 0;
    assert(capture_views(found@).take(0) =~= Seq::<CaptureFacts>::empty());
    assert(index_views(located@) =~= Seq::<int>::empty());
    while k < found.len()
        invariant
            k <= found@.len(),
            index_views(located@) == located_of(tree@, capture_views(found@).take(k as int)),
            are_nodes(tree@, located@),
        decreases found@.len() - k,
    {
        proof {
            let upto = capture_views(found@).take(k + 1);
            assert(upto.drop_last() =~= capture_views(found@).take(k as int));
            assert(upto.last() == found@[k as int]@);
        }
        let ghost before = located@;
        match tree.locate(&found[k]) {
            Some(at) => {
                located.push(at);
                assert(index_views(located@) =~= index_views(before).push(at as int));
            },
            None => {},
        }
        k += 1;
    }
    assert(capture_views(found@).take(k as int) =~= capture_views(found@));
    located
}

} // verus!
