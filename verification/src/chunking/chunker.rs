//! Reading the chunks of one parsed file: the patterns are run on the tree,
//! and what they capture is made into chunks.

use vstd::prelude::*;
use crate::grammar::{compiled, node_at, node_count, run_query, tree_nodes};
use crate::utils::parsers::SupportedParsers;
use super::bytes::byte_size;
use super::captures::{block_nodes, locate_all, unit_nodes, units_under};
use super::languages::{compile_general, compile_units, units_of, GENERAL_UNITS};
use super::sections::{section_chunks, section_chunks_of, SECTION_MAX_LINES};
use super::syntax::{
    capture_views, subtree_end, CaptureFacts, NodeFacts, SyntaxNode, SyntaxTree,
};
use super::tiers::{
    all_fit, all_well_formed, any_unit, are_nodes, assemble_chunks, block_chunks_of,
    chunks_of_file, general_chunks, index_views, lemma_chunks_of_file, lemma_unit_count,
    should_descend, structured_chunks, unit_chunks_of,
};
use super::types::{chunk_views, ChunkView, CodeChunk};

verus! {

/// Most bytes a chunk may take where no limit is given.
pub const DEFAULT_MAX_CHUNK_SIZE: usize = 4096;

/// Overlap between fragments, in hundredths of the limit, where none is
/// given.
pub const DEFAULT_OVERLAP_PERCENTAGE: usize = 10;

/// The nodes of `tree`, as a tree of this library.
pub fn syntax_of(tree: &tree_sitter::Tree) -> (nodes: SyntaxTree)
    ensures
        nodes@ == tree_nodes(*tree),
{
    let count = node_count(tree);
    let mut nodes: Vec<SyntaxNode> = Vec::new();
    let mut at: usize = 0;
    while at < count
        invariant
            at <= count,
            count == tree_nodes(*tree).len(),
            nodes@.len() == at,
            forall|k: int| 0 <= k < at ==> (#[trigger] nodes@[k])@ == tree_nodes(*tree)[k],
        decreases count - at,
    {
        nodes.push(node_at(tree, at));
        at += 1;
    }
    SyntaxTree { nodes }
}

/// The units that are captured from the node at `node`: what the compiled
/// pattern of the language gives, and none where it did not compile.
pub open spec fn units_of_query(
    nodes: Seq<NodeFacts>,
    query: Option<tree_sitter::Query>,
    tree: tree_sitter::Tree,
    source: Seq<char>,
    node: int,
) -> Seq<int> {
    match query {
        Some(pattern) => unit_nodes(nodes, pattern, tree, source, node),
        None => Seq::empty(),
    }
}

/// The blocks that are captured from the node at `node`: what the compiled
/// general pattern gives, and no answer where it did not compile.
pub open spec fn blocks_of_query(
    nodes: Seq<NodeFacts>,
    query: Option<tree_sitter::Query>,
    tree: tree_sitter::Tree,
    source: Seq<char>,
    node: int,
) -> Option<Seq<int>> {
    match query {
        Some(pattern) => Some(block_nodes(nodes, pattern, tree, source, node)),
        None => None,
    }
}

/// The chunks of the file with the text `source` at `path`, parsed as
/// `language` into `tree`, when `grammar` is the grammar of the language:
/// the chunks of the file for the units and blocks that the patterns of the
/// language, compiled for the grammar, capture from the root of the tree.
pub open spec fn extracted_of(
    tree: tree_sitter::Tree,
    grammar: tree_sitter::Language,
    source: Seq<char>,
    path: Seq<char>,
    language: SupportedParsers,
    max_size: int,
    percentage: int,
) -> Seq<ChunkView> {
    chunks_of_file(
        tree_nodes(tree),
        source,
        path,
        language.name(),
        units_of_query(
            tree_nodes(tree),
            compiled(grammar, units_of(language)),
            tree,
            source,
            0,
        ),
        blocks_of_query(tree_nodes(tree), compiled(grammar, GENERAL_UNITS@), tree, source, 0),
        max_size,
        percentage,
    )
}

/// Reads the chunks of one parsed file.
pub struct Chunker<'a> {
    tree: &'a tree_sitter::Tree,
    nodes: SyntaxTree,
    source: String,
    path: String,
    language: SupportedParsers,
    grammar: tree_sitter::Language,
    unit_query: Option<tree_sitter::Query>,
    general_query: Option<tree_sitter::Query>,
    max_chunk_size: usize,
    overlap_percentage: usize,
}

impl<'a> Chunker<'a> {
    /// The nodes that a chunker holds are those of its tree, and its
    /// patterns are those of its language, compiled for its grammar.
    #[verifier::type_invariant]
    spec fn holds_its_tree(self) -> bool {
        &&& self.nodes@ == tree_nodes(*self.tree)
        &&& self.unit_query == compiled(self.grammar, units_of(self.language))
        &&& self.general_query == compiled(self.grammar, GENERAL_UNITS@)
    }

    /// The tree of the file.
    pub closed spec fn tree(&self) -> tree_sitter::Tree {
        *self.tree
    }

    /// The grammar that the patterns were compiled for.
    pub closed spec fn grammar(&self) -> tree_sitter::Language {
        self.grammar
    }

    /// The text of the file.
    pub closed spec fn source(&self) -> Seq<char> {
        self.source@
    }

    /// The path of the file.
    pub closed spec fn path(&self) -> Seq<char> {
        self.path@
    }

    /// The language of the file.
    pub closed spec fn language(&self) -> SupportedParsers {
        self.language
    }

    /// Most bytes a chunk may take.
    pub closed spec fn max_chunk_size(&self) -> usize {
        self.max_chunk_size
    }

    /// Overlap between fragments, in hundredths of the limit.
    pub closed spec fn overlap_percentage(&self) -> usize {
        self.overlap_percentage
    }

    /// The nodes of the file's tree.
    pub open spec fn syntax(&self) -> Seq<NodeFacts> {
        tree_nodes(self.tree())
    }

    /// The pattern for the units of the language, where it compiled.
    pub open spec fn unit_query(&self) -> Option<tree_sitter::Query> {
        compiled(self.grammar(), units_of(self.language()))
    }

    /// The general pattern, where it compiled.
    pub open spec fn general_query(&self) -> Option<tree_sitter::Query> {
        compiled(self.grammar(), GENERAL_UNITS@)
    }

    /// The units that the language's pattern captures from the node at
    /// `node`.
    pub open spec fn units(&self, node: int) -> Seq<int> {
        units_of_query(self.syntax(), self.unit_query(), self.tree(), self.source(), node)
    }

    /// The blocks that the general pattern captures from the node at `node`.
    pub open spec fn blocks(&self, node: int) -> Option<Seq<int>> {
        blocks_of_query(self.syntax(), self.general_query(), self.tree(), self.source(), node)
    }

    /// The chunks of the file.
    pub open spec fn chunks(&self) -> Seq<ChunkView> {
        extracted_of(
            self.tree(),
            self.grammar(),
            self.source(),
            self.path(),
            self.language(),
            self.max_chunk_size() as int,
            self.overlap_percentage() as int,
        )
    }

    /// A chunker for the file at `path` with the text `source`, parsed as
    /// `language` into `tree`. The patterns of the language are compiled for
    /// its grammar. Where no limit or overlap is given, the defaults apply.
    pub fn new(
        tree: &'a tree_sitter::Tree,
        source: &str,
        path: &str,
        language: &SupportedParsers,
        max_chunk_size: Option<usize>,
        overlap_percentage: Option<usize>,
    ) -> (chunker: Self)
        ensures
            chunker.tree() == *tree,
            chunker.source() == source@,
            chunker.path() == path@,
            chunker.language() == *language,
            chunker.max_chunk_size() == limit_of(max_chunk_size),
            chunker.overlap_percentage() == share_of(overlap_percentage),
    {
        let grammar = language.language();
        let unit_query = match compile_units(&grammar, language) {
            Ok(query) => Some(query),
            Err(_) => None,
        };
        let general_query = match compile_general(&grammar) {
            Ok(query) => Some(query),
            Err(_) => None,
        };
        Chunker {
            tree,
            nodes: syntax_of(tree),
            source: source.to_owned(),
            path: path.to_owned(),
            language: *language,
            grammar,
            unit_query,
            general_query,
            max_chunk_size: max_chunk_size.unwrap_or(DEFAULT_MAX_CHUNK_SIZE),
            overlap_percentage: overlap_percentage.unwrap_or(DEFAULT_OVERLAP_PERCENTAGE),
        }
    }

    /// The nodes of the file's tree.
    pub fn nodes(&self) -> (nodes: &SyntaxTree)
        ensures
            nodes@ == self.syntax(),
    {
        proof {
            use_type_invariant(self);
        }
        &self.nodes
    }

    /// The chunks of the file: those of its units; where there are none,
    /// those of its blocks, or of its sections where the general pattern does
    /// not compile; where there are none either, the whole file; each split to
    /// the limit. A source that is empty has no chunks, and any other has at
    /// least one; no chunk ends before it starts, and none takes more bytes
    /// than the limit, unless it is a single character that does.
    pub fn extract_chunks(&self) -> (chunks: Vec<CodeChunk>)
        ensures
            chunk_views(chunks@) == self.chunks(),
            self.source().len() == 0 ==> chunks@.len() == 0,
            self.source().len() > 0 ==> chunks@.len() >= 1,
            all_fit(chunk_views(chunks@), self.max_chunk_size() as int),
            self.max_chunk_size() >= 4 ==> forall|i: int|
                0 <= i < chunks@.len() ==> byte_size((#[trigger] chunks@[i])@.content)
                    <= self.max_chunk_size(),
            all_well_formed(chunk_views(chunks@)),
    {
        proof {
            use_type_invariant(self);
        }
        let name = self.language.to_string();
        let empty = self.source.as_str().is_empty();
        let units = if empty {
            Vec::new()
        } else {
            self.structured_captures(0)
        };
        let blocks = if empty || any_unit(&self.nodes, &units) {
            None
        } else {
            self.general_captures(0)
        };
        let chunks = assemble_chunks(
            &self.nodes,
            self.source.as_str(),
            self.path.as_str(),
            name.as_str(),
            &units,
            blocks.as_ref(),
            self.max_chunk_size,
            self.overlap_percentage,
        );
        proof {
            lemma_unit_count(
                self.syntax(),
                self.source(),
                index_views(units@),
                self.path(),
                self.language().name(),
            );
            lemma_chunks_of_file(
                self.syntax(),
                self.source(),
                self.path(),
                self.language().name(),
                self.units(0),
                self.blocks(0),
                self.max_chunk_size() as int,
                self.overlap_percentage() as int,
            );
            assert(chunk_views(chunks@) == self.chunks());
            assert forall|i: int| 0 <= i < chunks@.len() implies chunk_views(chunks@)[i]
                == (#[trigger] chunks@[i])@ by {}
        }
        chunks
    }

    /// The units that `query` gives from the node at `node`, as indices, in
    /// the order in which they are captured. Where the query is repeated from
    /// a captured node, what it gives there comes before that node.
    fn collect_captures(&self, query: &tree_sitter::Query, node: usize) -> (captures: Vec<usize>)
        requires
            node < self.nodes@.len(),
        ensures
            index_views(captures@) == unit_nodes(
                self.nodes@,
                *query,
                *self.tree,
                self.source@,
                node as int,
            ),
            are_nodes(self.nodes@, captures@),
        decreases subtree_end(self.nodes@, node as int) - node,
    {
        proof {
            use_type_invariant(self);
        }
        let found = run_query(query, self.tree, node, self.source.as_str());
        let ghost answered = capture_views(found@);
        let mut captures: Vec<usize> = Vec::new();
        let mut k: usize = 0;
        assert(answered.take(0) =~= Seq::<CaptureFacts>::empty());
        assert(index_views(captures@) =~= Seq::<int>::empty());
        while k < found.len()
            invariant
                k <= found@.len(),
                node < self.nodes@.len(),
                answered == capture_views(found@),
                index_views(captures@) == units_under(
                    self.nodes@,
                    *query,
                    *self.tree,
                    self.source@,
                    node as int,
                    answered.take(k as int),
                ),
                are_nodes(self.nodes@, captures@),
            decreases found@.len() - k,
        {
            proof {
                let upto = answered.take(k + 1);
                assert(upto.drop_last() =~= answered.take(k as int));
                assert(upto.last() == found@[k as int]@);
            }
            let ghost before = captures@;
            match self.nodes.locate(&found[k]) {
                Some(at) => {
                    if should_descend(&self.nodes, node, at) {
                        let mut repeated = self.collect_captures(query, at);
                        let ghost inner = repeated@;
                        captures.append(&mut repeated);
                        captures.push(at);
                        assert(index_views(captures@) =~= index_views(before) + index_views(inner)
                            + seq![at as int]);
                    } else {
                        captures.push(at);
                        assert(index_views(captures@) =~= index_views(before).push(at as int));
                    }
                },
                None => {},
            }
            k += 1;
        }
        assert(answered.take(k as int) =~= answered);
        captures
    }

    /// The units below the node at `node`, as the language's pattern
    /// captures them, with what the repeated queries give before the
    /// containers they were repeated from; none where the pattern does not
    /// compile or the tree has no such node.
    pub fn structured_captures(&self, node: usize) -> (captures: Vec<usize>)
        ensures
            index_views(captures@) == self.units(node as int),
            are_nodes(self.syntax(), captures@),
    {
        proof {
            use_type_invariant(self);
        }
        let captures = match &self.unit_query {
            Some(query) => if node < self.nodes.len() {
                self.collect_captures(query, node)
            } else {
                Vec::new()
            },
            None => Vec::new(),
        };
        assert(index_views(captures@) =~= self.units(node as int));
        captures
    }

    /// The blocks below the node at `node`, as the general pattern captures
    /// them, none where the tree has no such node; `None` where the pattern
    /// does not compile for the language.
    pub fn general_captures(&self, node: usize) -> (captures: Option<Vec<usize>>)
        ensures
            match captures {
                Some(located) => self.blocks(node as int) == Some(index_views(located@))
                    && are_nodes(self.syntax(), located@),
                None => self.blocks(node as int) is None,
            },
    {
        proof {
            use_type_invariant(self);
        }
        match &self.general_query {
            Some(query) => {
                let found = if node < self.nodes.len() {
                    run_query(query, self.tree, node, self.source.as_str())
                } else {
                    Vec::new()
                };
                let located = locate_all(&self.nodes, &found);
                proof {
                    if node >= self.nodes@.len() {
                        assert(capture_views(found@) =~= Seq::<CaptureFacts>::empty());
                    }
                    assert(index_views(located@) =~= block_nodes(
                        self.nodes@,
                        *query,
                        *self.tree,
                        self.source@,
                        node as int,
                    ));
                }
                Some(located)
            },
            None => None,
        }
    }

    /// The chunks of the units below the node at `node`, as the language's
    /// pattern finds them; none where the pattern does not compile.
    pub fn extract_structured_chunks(&self, node: usize) -> (chunks: Vec<CodeChunk>)
        ensures
            chunk_views(chunks@) == unit_chunks_of(
                self.syntax(),
                self.source(),
                self.units(node as int),
                self.path(),
                self.language().name(),
            ),
    {
        proof {
            use_type_invariant(self);
        }
        let name = self.language.to_string();
        let captures = self.structured_captures(node);
        structured_chunks(
            &self.nodes,
            self.source.as_str(),
            self.path.as_str(),
            name.as_str(),
            &captures,
        )
    }

    /// The chunks of the blocks below the node at `node`, as the general
    /// pattern finds them; where that pattern does not compile for the
    /// language, the chunks of the sections of the source.
    pub fn extract_general_chunks(&self, node: usize) -> (chunks: Vec<CodeChunk>)
        ensures
            chunk_views(chunks@) == match self.blocks(node as int) {
                Some(captures) => block_chunks_of(
                    self.syntax(),
                    self.source(),
                    captures,
                    self.path(),
                    self.language().name(),
                ),
                None => section_chunks_of(self.source(), self.path(), self.language().name()),
            },
    {
        proof {
            use_type_invariant(self);
        }
        match self.general_captures(node) {
            Some(captures) => {
                let name = self.language.to_string();
                general_chunks(
                    &self.nodes,
                    self.source.as_str(),
                    self.path.as_str(),
                    name.as_str(),
                    &captures,
                )
            },
            None => self.extract_section_chunks(),
        }
    }

    /// The chunks of the sections of the source, cut along its blank lines
    /// and wherever a section has `SECTION_MAX_LINES` lines.
    pub fn extract_section_chunks(&self) -> (chunks: Vec<CodeChunk>)
        ensures
            chunk_views(chunks@) == section_chunks_of(
                self.source(),
                self.path(),
                self.language().name(),
            ),
            forall|i: int|
                0 <= i < chunks@.len() ==> (#[trigger] chunks@[i]).end_line
                    - chunks@[i].start_line <= SECTION_MAX_LINES,
    {
        let name = self.language.to_string();
        section_chunks(self.source.as_str(), self.path.as_str(), name.as_str())
    }
}

/// The chunks of the file at `path` with the text `source`, parsed as
/// `language` into `tree`: see `Chunker::extract_chunks`. They are the chunks
/// that the patterns of the language give, compiled for its grammar.
pub fn extract_chunks(
    tree: &tree_sitter::Tree,
    source: &str,
    path: &str,
    language: &SupportedParsers,
    max_chunk_size: Option<usize>,
    overlap_percentage: Option<usize>,
) -> (chunks: Vec<CodeChunk>)
    ensures
        exists|grammar: tree_sitter::Language|
            chunk_views(chunks@) == #[trigger] extracted_of(
                *tree,
                grammar,
                source@,
                path@,
                *language,
                limit_of(max_chunk_size) as int,
                share_of(overlap_percentage) as int,
            ),
        source@.len() == 0 ==> chunks@.len() == 0,
        source@.len() > 0 ==> chunks@.len() >= 1,
        all_fit(chunk_views(chunks@), limit_of(max_chunk_size) as int),
        limit_of(max_chunk_size) >= 4 ==> forall|i: int|
            0 <= i < chunks@.len() ==> byte_size((#[trigger] chunks@[i])@.content) <= limit_of(
                max_chunk_size,
            ),
        all_well_formed(chunk_views(chunks@)),
{
    let chunker = Chunker::new(
        tree,
        source,
        path,
        language,
        max_chunk_size,
        overlap_percentage,
    );
    let chunks = chunker.extract_chunks();
    assert(chunk_views(chunks@) == extracted_of(
        *tree,
        chunker.grammar(),
        source@,
        path@,
        *language,
        limit_of(max_chunk_size) as int,
        share_of(overlap_percentage) as int,
    ));
    chunks
}

/// The limit in use: the one given, or the default.
pub open spec fn limit_of(max_chunk_size: Option<usize>) -> usize {
    match max_chunk_size {
        Some(limit) => limit,
        None => DEFAULT_MAX_CHUNK_SIZE,
    }
}

/// The overlap in use: the one given, or the default.
pub open spec fn share_of(overlap_percentage: Option<usize>) -> usize {
    match overlap_percentage {
        Some(percentage) => percentage,
        None => DEFAULT_OVERLAP_PERCENTAGE,
    }
}

} // verus!
