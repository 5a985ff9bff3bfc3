//! The chunks of a file, tier by tier, given what the patterns captured in
//! its tree: the units that the language's pattern found; failing that, the
//! blocks that the general pattern found, or sections cut along blank lines;
//! failing all, the whole file. Chunks that are too large are then split.

use vstd::prelude::*;
use super::context::{add_chunk_context, annotated, node_name};
use super::languages::{is_container, is_container_kind};
use super::preprocess::{preprocess_code, preprocessed};
use super::sections::{section_chunks, section_chunks_of};
use super::bytes::byte_size;
use super::splitter::{
    fits, lemma_fragments_fit, lemma_fragments_fit_wide_limit, lemma_split_keeps_well_formed,
    lemma_split_not_empty, split_large_chunk, split_of,
};
use super::syntax::{parent_of, subtree_end, NodeFacts, SyntaxTree};
use super::types::{chunk_views, ChunkView, CodeChunk};

verus! {

/// A unit on a single line is left out when it has fewer columns than this.
pub const MIN_UNIT_WIDTH: usize = 3;

/// A block is left out when its last line is fewer lines than this after its
/// first.
pub const MIN_BLOCK_LINES: usize = 3;

/// The node lies on a single line and is less than `MIN_UNIT_WIDTH` columns
/// wide.
pub open spec fn is_too_narrow(node: NodeFacts) -> bool {
    node.start_row == node.end_row && node.end_column - node.start_column < MIN_UNIT_WIDTH
}

/// The node ends at least `MIN_BLOCK_LINES` lines after it starts.
pub open spec fn is_substantial(node: NodeFacts) -> bool {
    node.end_row - node.start_row >= MIN_BLOCK_LINES
}

/// The last line of a node: the line on which it ends, and the line on
/// which it starts where it would end before that.
pub open spec fn last_line(node: NodeFacts) -> usize {
    if node.end_row < node.start_row {
        node.start_row
    } else {
        node.end_row
    }
}

/// The chunk of the node at `at`: its normalized text, tagged with its kind,
/// on its lines.
pub open spec fn node_chunk(
    nodes: Seq<NodeFacts>,
    source: Seq<char>,
    at: int,
    path: Seq<char>,
    language: Seq<char>,
) -> ChunkView {
    ChunkView {
        content: preprocessed(nodes, source, at),
        node_type: nodes[at].kind,
        start_line: nodes[at].start_row,
        end_line: last_line(nodes[at]),
        path,
        language,
    }
}

/// The chunk of the unit at `at`: the chunk of the node, with the node's name
/// and a line that names its parent.
pub open spec fn unit_chunk(
    nodes: Seq<NodeFacts>,
    source: Seq<char>,
    at: int,
    path: Seq<char>,
    language: Seq<char>,
) -> ChunkView {
    annotated(node_chunk(nodes, source, at, path, language), nodes, source, at, parent_of(nodes, at))
}

/// The chunks of the captured units, in the order of the captures: one for
/// each capture that is a node of the tree and is not too narrow.
pub open spec fn unit_chunks_of(
    nodes: Seq<NodeFacts>,
    source: Seq<char>,
    captures: Seq<int>,
    path: Seq<char>,
    language: Seq<char>,
) -> Seq<ChunkView>
    decreases captures.len(),
{
    if captures.len() == 0 {
        Seq::empty()
    } else {
        let before = unit_chunks_of(nodes, source, captures.drop_last(), path, language);
        let at = captures.last();
        if 0 <= at < nodes.len() && !is_too_narrow(nodes[at]) {
            before.push(unit_chunk(nodes, source, at, path, language))
        } else {
            before
        }
    }
}

/// The chunks of the captured blocks, in the order of the captures: one for
/// each capture that is a node of the tree and is substantial.
pub open spec fn block_chunks_of(
    nodes: Seq<NodeFacts>,
    source: Seq<char>,
    captures: Seq<int>,
    path: Seq<char>,
    language: Seq<char>,
) -> Seq<ChunkView>
    decreases captures.len(),
{
    if captures.len() == 0 {
        Seq::empty()
    } else {
        let before = block_chunks_of(nodes, source, captures.drop_last(), path, language);
        let at = captures.last();
        if 0 <= at < nodes.len() && is_substantial(nodes[at]) {
            before.push(node_chunk(nodes, source, at, path, language))
        } else {
            before
        }
    }
}

/// The chunk that holds the whole file: the normalized text of the first
/// node, from line 0 to the line on which that node ends.
pub open spec fn file_chunk(
    nodes: Seq<NodeFacts>,
    source: Seq<char>,
    path: Seq<char>,
    language: Seq<char>,
) -> ChunkView {
    ChunkView {
        content: preprocessed(nodes, source, 0),
        node_type: "file"@,
        start_line: 0,
        end_line: if nodes.len() > 0 {
            nodes[0].end_row
        } else {
            0
        },
        path,
        language,
    }
}

/// Every chunk of the list split, the results in the order of the list.
pub open spec fn split_all_of(chunks: Seq<ChunkView>, max_size: int, percentage: int) -> Seq<
    ChunkView,
>
    decreases chunks.len(),
{
    if chunks.len() == 0 {
        Seq::empty()
    } else {
        split_all_of(chunks.drop_last(), max_size, percentage) + split_of(
            chunks.last(),
            max_size,
            percentage,
        )
    }
}

/// The chunks of a file, given the chunks `found` in it: where none was found
/// in a source that is not empty, the chunk of the whole file takes their
/// place; then every chunk is split.
pub open spec fn finished_of(
    found: Seq<ChunkView>,
    nodes: Seq<NodeFacts>,
    source: Seq<char>,
    path: Seq<char>,
    language: Seq<char>,
    max_size: int,
    percentage: int,
) -> Seq<ChunkView> {
    if found.len() == 0 && source.len() > 0 {
        split_all_of(seq![file_chunk(nodes, source, path, language)], max_size, percentage)
    } else {
        split_all_of(found, max_size, percentage)
    }
}

/// The chunks found in a file, before any is split: those of the captured
/// units where there is at least one; else those of the captured blocks, or,
/// where the general pattern gave no answer, those of the sections of the
/// source.
pub open spec fn found_of(
    nodes: Seq<NodeFacts>,
    source: Seq<char>,
    path: Seq<char>,
    language: Seq<char>,
    units: Seq<int>,
    blocks: Option<Seq<int>>,
) -> Seq<ChunkView> {
    let first = unit_chunks_of(nodes, source, units, path, language);
    if first.len() > 0 {
        first
    } else {
        match blocks {
            Some(captures) => block_chunks_of(nodes, source, captures, path, language),
            None => section_chunks_of(source, path, language),
        }
    }
}

/// The chunks of a file whose units and blocks were captured as `units` and
/// `blocks`: none for an empty source; else what was found, or the whole file
/// where nothing was found, each chunk split.
pub open spec fn chunks_of_file(
    nodes: Seq<NodeFacts>,
    source: Seq<char>,
    path: Seq<char>,
    language: Seq<char>,
    units: Seq<int>,
    blocks: Option<Seq<int>>,
    max_size: int,
    percentage: int,
) -> Seq<ChunkView> {
    if source.len() == 0 {
        Seq::empty()
    } else {
        finished_of(
            found_of(nodes, source, path, language, units, blocks),
            nodes,
            source,
            path,
            language,
            max_size,
            percentage,
        )
    }
}

/// A query from the node at `node` is repeated from the captured node at
/// `at`: that node is a container, is not too narrow, and lies below `node`
/// with all its subtree.
pub open spec fn is_descended(nodes: Seq<NodeFacts>, node: int, at: int) -> bool {
    &&& 0 <= node < at < nodes.len()
    &&& subtree_end(nodes, at) <= subtree_end(nodes, node)
    &&& !is_too_narrow(nodes[at])
    &&& is_container_kind(nodes[at].kind)
}

/// Every index of the list is the index of a node.
pub open spec fn are_nodes(nodes: Seq<NodeFacts>, indices: Seq<usize>) -> bool {
    forall|i: int| 0 <= i < indices.len() ==> #[trigger] indices[i] < nodes.len()
}

/// The indices of a list, as integers.
pub open spec fn index_views(indices: Seq<usize>) -> Seq<int> {
    indices.map_values(|index: usize| index as int)
}

/// The chunk of the node at `at` of `tree`.
pub(crate) fn chunk_of_node(tree: &SyntaxTree, source: &str, at: usize, path: &str, language: &str) -> (chunk:
    CodeChunk)
    requires
        at < tree@.len(),
    ensures
        chunk@ == node_chunk(tree@, source@, at as int, path@, language@),
{
    let node = tree.node(at);
    CodeChunk {
        content: preprocess_code(tree, at, source),
        node_type: node.kind.clone(),
        start_line: node.start_row,
        end_line: if node.end_row < node.start_row {
            node.start_row
        } else {
            node.end_row
        },
        path: path.to_owned(),
        language: language.to_owned(),
    }
}

/// The chunks of the units that a pattern captured in `tree`, given as
/// indices of nodes. A unit on a single line that is less than
/// `MIN_UNIT_WIDTH` columns wide gives none; every other gives its normalized
/// text, tagged with its kind and name, after a line that names its parent.
pub fn structured_chunks(
    tree: &SyntaxTree,
    source: &str,
    path: &str,
    language: &str,
    captures: &Vec<usize>,
) -> (chunks: Vec<CodeChunk>)
    ensures
        chunk_views(chunks@) == unit_chunks_of(
            tree@,
            source@,
            index_views(captures@),
            path@,
            language@,
        ),
        all_well_formed(chunk_views(chunks@)),
{
    proof {
        lemma_unit_chunks_well_formed(tree@, source@, index_views(captures@), path@, language@);
    }
    let mut chunks: Vec<CodeChunk> = Vec::new();
    let mut k: usize = 0;
    while k < captures.len()
        invariant
            k <= captures@.len(),
            chunk_views(chunks@) == unit_chunks_of(
                tree@,
                source@,
                index_views(captures@).take(k as int),
                path@,
                language@,
            ),
        decreases captures@.len() - k,
    {
        let at = captures[k];
        proof {
            let upto = index_views(captures@).take(k + 1);
            assert(upto.drop_last() =~= index_views(captures@).take(k as int));
        }
        if at < tree.len() {
            let node = tree.node(at);
            let narrow = node.start_row == node.end_row && (node.end_column < node.start_column
                || node.end_column - node.start_column < MIN_UNIT_WIDTH);
            if !narrow {
                let mut chunk = chunk_of_node(tree, source, at, path, language);
                let above = tree.parent(at);
                add_chunk_context(&mut chunk, tree, at, source, above);
                chunks.push(chunk);
            }
        }
        k += 1;
    }
    assert(index_views(captures@).take(k as int) =~= index_views(captures@));
    chunks
}

/// The chunks of the blocks that the general pattern captured in `tree`,
/// given as indices of nodes. A block that ends less than `MIN_BLOCK_LINES`
/// lines after it starts gives none; every other gives its normalized text,
/// tagged with its kind.
pub fn general_chunks(
    tree: &SyntaxTree,
    source: &str,
    path: &str,
    language: &str,
    captures: &Vec<usize>,
) -> (chunks: Vec<CodeChunk>)
    ensures
        chunk_views(chunks@) == block_chunks_of(
            tree@,
            source@,
            index_views(captures@),
            path@,
            language@,
        ),
        all_well_formed(chunk_views(chunks@)),
{
    proof {
        lemma_block_chunks_well_formed(tree@, source@, index_views(captures@), path@, language@);
    }
    let mut chunks: Vec<CodeChunk> = Vec::new();
    let mut k: usize = 0;
    while k < captures.len()
        invariant
            k <= captures@.len(),
            chunk_views(chunks@) == block_chunks_of(
                tree@,
                source@,
                index_views(captures@).take(k as int),
                path@,
                language@,
            ),
        decreases captures@.len() - k,
    {
        let at = captures[k];
        proof {
            let upto = index_views(captures@).take(k + 1);
            assert(upto.drop_last() =~= index_views(captures@).take(k as int));
        }
        if at < tree.len() {
            let node = tree.node(at);
            if node.end_row >= node.start_row && node.end_row - node.start_row >= MIN_BLOCK_LINES {
                let chunk = chunk_of_node(tree, source, at, path, language);
                chunks.push(chunk);
            }
        }
        k += 1;
    }
    assert(index_views(captures@).take(k as int) =~= index_views(captures@));
    chunks
}

/// The chunk that holds the whole file.
pub fn whole_file_chunk(tree: &SyntaxTree, source: &str, path: &str, language: &str) -> (chunk:
    CodeChunk)
    ensures
        chunk@ == file_chunk(tree@, source@, path@, language@),
{
    let end_line = if tree.len() > 0 {
        tree.node(0).end_row
    } else {
        0
    };
    CodeChunk {
        content: preprocess_code(tree, 0, source),
        node_type: "file".to_owned(),
        start_line: 0,
        end_line,
        path: path.to_owned(),
        language: language.to_owned(),
    }
}

/// Splits every chunk of `chunks` that takes more than `max_size` bytes,
/// and keeps the others as they are, all in the order of the list.
pub fn split_chunks(chunks: &Vec<CodeChunk>, max_size: usize, overlap_percentage: usize) -> (pieces:
    Vec<CodeChunk>)
    ensures
        chunk_views(pieces@) == split_all_of(
            chunk_views(chunks@),
            max_size as int,
            overlap_percentage as int,
        ),
        all_well_formed(chunk_views(chunks@)) ==> all_well_formed(chunk_views(pieces@)),
{
    proof {
        if all_well_formed(chunk_views(chunks@)) {
            lemma_split_all_well_formed(
                chunk_views(chunks@),
                max_size as int,
                overlap_percentage as int,
            );
        }
    }
    let mut pieces: Vec<CodeChunk> = Vec::new();
    let mut k: usize = 0;
    while k < chunks.len()
        invariant
            k <= chunks@.len(),
            chunk_views(pieces@) == split_all_of(
                chunk_views(chunks@).take(k as int),
                max_size as int,
                overlap_percentage as int,
            ),
        decreases chunks@.len() - k,
    {
        let mut parts = split_large_chunk(&chunks[k], max_size, overlap_percentage);
        proof {
            let upto = chunk_views(chunks@).take(k + 1);
            assert(upto.drop_last() =~= chunk_views(chunks@).take(k as int));
        }
        pieces.append(&mut parts);
        k += 1;
    }
    assert(chunk_views(chunks@).take(k as int) =~= chunk_views(chunks@));
    pieces
}

/// The chunks of a file, given the chunks `found` in it: the chunk of the
/// whole file where none was found in a source that is not empty, and every
/// chunk split to `max_size` bytes.
pub fn finish_chunks(
    found: Vec<CodeChunk>,
    tree: &SyntaxTree,
    source: &str,
    path: &str,
    language: &str,
    max_size: usize,
    overlap_percentage: usize,
) -> (chunks: Vec<CodeChunk>)
    ensures
        chunk_views(chunks@) == finished_of(
            chunk_views(found@),
            tree@,
            source@,
            path@,
            language@,
            max_size as int,
            overlap_percentage as int,
        ),
        all_well_formed(chunk_views(found@)) ==> all_well_formed(chunk_views(chunks@)),
{
    if found.len() == 0 && !source.is_empty() {
        let whole = whole_file_chunk(tree, source, path, language);
        let alone = vec![whole];
        assert(chunk_views(alone@) =~= seq![file_chunk(tree@, source@, path@, language@)]);
        split_chunks(&alone, max_size, overlap_percentage)
    } else {
        split_chunks(&found, max_size, overlap_percentage)
    }
}

/// Splitting a list of chunks gives at least as many chunks as the list
/// holds, and so at least one where the list is not empty.
pub proof fn lemma_split_all_keeps_some(chunks: Seq<ChunkView>, max_size: int, percentage: int)
    requires
        0 <= max_size,
        0 <= percentage,
    ensures
        split_all_of(chunks, max_size, percentage).len() >= chunks.len(),
    decreases chunks.len(),
{
    if chunks.len() > 0 {
        lemma_split_all_keeps_some(chunks.drop_last(), max_size, percentage);
        lemma_split_not_empty(chunks.last(), max_size, percentage);
    }
}

/// Every chunk of a list takes no more than `max_size` bytes, or is a
/// single character.
pub open spec fn all_fit(chunks: Seq<ChunkView>, max_size: int) -> bool {
    forall|i: int| 0 <= i < chunks.len() ==> fits((#[trigger] chunks[i]).content, max_size)
}

/// After splitting, every chunk takes no more than `max_size` bytes, or is
/// a single character that alone takes more.
pub proof fn lemma_split_all_fit_or_are_single(chunks: Seq<ChunkView>, max_size: int, percentage: int)
    requires
        0 <= max_size,
        0 <= percentage,
    ensures
        all_fit(split_all_of(chunks, max_size, percentage), max_size),
    decreases chunks.len(),
{
    if chunks.len() > 0 {
        lemma_split_all_fit_or_are_single(chunks.drop_last(), max_size, percentage);
        lemma_fragments_fit(chunks.last(), max_size, percentage);
    }
}

/// After splitting, every chunk takes no more than `max_size` bytes, where
/// `max_size` is at least 4, which every character fits.
pub proof fn lemma_split_all_fit_wide_limit(chunks: Seq<ChunkView>, max_size: int, percentage: int)
    requires
        4 <= max_size,
        0 <= percentage,
    ensures
        forall|i: int|
            0 <= i < split_all_of(chunks, max_size, percentage).len() ==> byte_size(
                (#[trigger] split_all_of(chunks, max_size, percentage)[i]).content,
            ) <= max_size,
    decreases chunks.len(),
{
    if chunks.len() > 0 {
        lemma_split_all_fit_wide_limit(chunks.drop_last(), max_size, percentage);
        lemma_fragments_fit_wide_limit(chunks.last(), max_size, percentage);
        assert(split_all_of(chunks, max_size, percentage) == split_all_of(
            chunks.drop_last(),
            max_size,
            percentage,
        ) + split_of(chunks.last(), max_size, percentage));
    }
}

/// Every chunk of a list does not end before it starts.
pub open spec fn all_well_formed(chunks: Seq<ChunkView>) -> bool {
    forall|i: int| 0 <= i < chunks.len() ==> (#[trigger] chunks[i]).well_formed()
}

/// No chunk of a unit ends before it starts.
pub proof fn lemma_unit_chunks_well_formed(
    nodes: Seq<NodeFacts>,
    source: Seq<char>,
    captures: Seq<int>,
    path: Seq<char>,
    language: Seq<char>,
)
    ensures
        all_well_formed(unit_chunks_of(nodes, source, captures, path, language)),
    decreases captures.len(),
{
    if captures.len() > 0 {
        lemma_unit_chunks_well_formed(nodes, source, captures.drop_last(), path, language);
    }
}

/// No chunk of a block ends before it starts.
pub proof fn lemma_block_chunks_well_formed(
    nodes: Seq<NodeFacts>,
    source: Seq<char>,
    captures: Seq<int>,
    path: Seq<char>,
    language: Seq<char>,
)
    ensures
        all_well_formed(block_chunks_of(nodes, source, captures, path, language)),
    decreases captures.len(),
{
    if captures.len() > 0 {
        lemma_block_chunks_well_formed(nodes, source, captures.drop_last(), path, language);
    }
}

/// Splitting chunks that do not end before they start gives chunks that do
/// not either.
pub proof fn lemma_split_all_well_formed(chunks: Seq<ChunkView>, max_size: int, percentage: int)
    requires
        all_well_formed(chunks),
    ensures
        all_well_formed(split_all_of(chunks, max_size, percentage)),
    decreases chunks.len(),
{
    if chunks.len() > 0 {
        lemma_split_all_well_formed(chunks.drop_last(), max_size, percentage);
        lemma_split_keeps_well_formed(chunks.last(), max_size, percentage);
    }
}

/// Every captured unit is a node of the tree and is not too narrow.
pub open spec fn are_units(nodes: Seq<NodeFacts>, captures: Seq<int>) -> bool {
    forall|i: int|
        0 <= i < captures.len() ==> 0 <= #[trigger] captures[i] < nodes.len() && !is_too_narrow(
            nodes[captures[i]],
        )
}

/// Captured units that are nodes of the tree and are not too narrow give
/// one chunk each, in the order of the captures: the chunk of a unit lies on
/// the lines of its node, and its tag is the kind of the node, followed by a
/// colon and the node's name where it has one.
pub proof fn lemma_units_give_their_chunks(
    nodes: Seq<NodeFacts>,
    source: Seq<char>,
    captures: Seq<int>,
    path: Seq<char>,
    language: Seq<char>,
)
    requires
        are_units(nodes, captures),
    ensures
        unit_chunks_of(nodes, source, captures, path, language).len() == captures.len(),
        forall|i: int|
            0 <= i < captures.len() ==> {
                let chunk = #[trigger] unit_chunks_of(nodes, source, captures, path, language)[i];
                let at = captures[i];
                &&& chunk == unit_chunk(nodes, source, at, path, language)
                &&& chunk.start_line == nodes[at].start_row
                &&& chunk.end_line == last_line(nodes[at])
                &&& chunk.node_type == match node_name(nodes, source, at) {
                    Some(name) => nodes[at].kind + ":"@ + name,
                    None => nodes[at].kind,
                }
            },
    decreases captures.len(),
{
    if captures.len() > 0 {
        let before = captures.drop_last();
        assert forall|i: int| 0 <= i < before.len() implies 0 <= #[trigger] before[i] < nodes.len()
            && !is_too_narrow(nodes[before[i]]) by {
            assert(before[i] == captures[i]);
        }
        lemma_units_give_their_chunks(nodes, source, before, path, language);
        assert(captures.last() == captures[captures.len() - 1]);
        let all = unit_chunks_of(nodes, source, captures, path, language);
        let first = unit_chunks_of(nodes, source, before, path, language);
        assert(all == first.push(unit_chunk(nodes, source, captures.last(), path, language)));
        assert forall|i: int| 0 <= i < captures.len() implies {
            let chunk = #[trigger] all[i];
            let at = captures[i];
            &&& chunk == unit_chunk(nodes, source, at, path, language)
            &&& chunk.start_line == nodes[at].start_row
            &&& chunk.end_line == last_line(nodes[at])
            &&& chunk.node_type == match node_name(nodes, source, at) {
                Some(name) => nodes[at].kind + ":"@ + name,
                None => nodes[at].kind,
            }
        } by {
            if i < before.len() {
                assert(all[i] == first[i]);
                assert(before[i] == captures[i]);
            }
        }
    }
}

/// Captured blocks of which none is a substantial node of the tree give no
/// chunk.
pub proof fn lemma_slight_blocks_give_nothing(
    nodes: Seq<NodeFacts>,
    source: Seq<char>,
    captures: Seq<int>,
    path: Seq<char>,
    language: Seq<char>,
)
    requires
        forall|i: int|
            0 <= i < captures.len() ==> !(0 <= #[trigger] captures[i] < nodes.len()
                && is_substantial(nodes[captures[i]])),
    ensures
        block_chunks_of(nodes, source, captures, path, language).len() == 0,
    decreases captures.len(),
{
    if captures.len() > 0 {
        let before = captures.drop_last();
        assert forall|i: int| 0 <= i < before.len() implies !(0 <= #[trigger] before[i]
            < nodes.len() && is_substantial(nodes[before[i]])) by {
            assert(before[i] == captures[i]);
        }
        lemma_slight_blocks_give_nothing(nodes, source, before, path, language);
        assert(captures.last() == captures[captures.len() - 1]);
    }
}

/// Where nothing is found in a source that is not empty, and the text of
/// the whole file takes no more than `max_size` bytes, the file has exactly
/// one chunk: the whole file, tagged `file`, from line 0 to the line on which
/// the first node ends.
pub proof fn lemma_nothing_found_gives_the_file(
    nodes: Seq<NodeFacts>,
    source: Seq<char>,
    path: Seq<char>,
    language: Seq<char>,
    units: Seq<int>,
    blocks: Option<Seq<int>>,
    max_size: int,
    percentage: int,
)
    requires
        source.len() > 0,
        found_of(nodes, source, path, language, units, blocks).len() == 0,
        byte_size(preprocessed(nodes, source, 0)) <= max_size,
    ensures
        chunks_of_file(nodes, source, path, language, units, blocks, max_size, percentage)
            == seq![file_chunk(nodes, source, path, language)],
        file_chunk(nodes, source, path, language).node_type == "file"@,
        file_chunk(nodes, source, path, language).start_line == 0,
        file_chunk(nodes, source, path, language).content == preprocessed(nodes, source, 0),
        nodes.len() > 0 ==> file_chunk(nodes, source, path, language).end_line
            == nodes[0].end_row,
{
    let whole = file_chunk(nodes, source, path, language);
    assert(seq![whole].drop_last() =~= Seq::<ChunkView>::empty());
    assert(seq![whole].last() == whole);
    assert(split_all_of(Seq::<ChunkView>::empty(), max_size, percentage) =~= Seq::<
        ChunkView,
    >::empty());
    assert(split_all_of(seq![whole], max_size, percentage) =~= seq![whole]);
}

/// Captured units that are all too narrow, or no nodes of the tree, with
/// blocks of which none is substantial, are nothing found: where the text of
/// a file that is not empty fits the limit, the file is then its one chunk.
pub proof fn lemma_narrow_units_give_the_file(
    nodes: Seq<NodeFacts>,
    source: Seq<char>,
    path: Seq<char>,
    language: Seq<char>,
    units: Seq<int>,
    blocks: Seq<int>,
    max_size: int,
    percentage: int,
)
    requires
        source.len() > 0,
        unit_count(nodes, units) == 0,
        forall|i: int|
            0 <= i < blocks.len() ==> !(0 <= #[trigger] blocks[i] < nodes.len() && is_substantial(
                nodes[blocks[i]],
            )),
        byte_size(preprocessed(nodes, source, 0)) <= max_size,
    ensures
        chunks_of_file(nodes, source, path, language, units, Some(blocks), max_size, percentage)
            == seq![file_chunk(nodes, source, path, language)],
{
    lemma_unit_count(nodes, source, units, path, language);
    lemma_slight_blocks_give_nothing(nodes, source, blocks, path, language);
    lemma_nothing_found_gives_the_file(
        nodes,
        source,
        path,
        language,
        units,
        Some(blocks),
        max_size,
        percentage,
    );
}

/// How many of the captured units give a chunk: those that are nodes of
/// the tree and are not too narrow.
pub open spec fn unit_count(nodes: Seq<NodeFacts>, captures: Seq<int>) -> nat
    decreases captures.len(),
{
    if captures.len() == 0 {
        0
    } else {
        let before = unit_count(nodes, captures.drop_last());
        let at = captures.last();
        if 0 <= at < nodes.len() && !is_too_narrow(nodes[at]) {
            before + 1
        } else {
            before
        }
    }
}

/// The captured units give as many chunks as `unit_count` says.
pub proof fn lemma_unit_count(
    nodes: Seq<NodeFacts>,
    source: Seq<char>,
    captures: Seq<int>,
    path: Seq<char>,
    language: Seq<char>,
)
    ensures
        unit_chunks_of(nodes, source, captures, path, language).len() == unit_count(
            nodes,
            captures,
        ),
    decreases captures.len(),
{
    if captures.len() > 0 {
        lemma_unit_count(nodes, source, captures.drop_last(), path, language);
    }
}

/// Whether any of the captured units gives a chunk.
pub fn any_unit(tree: &SyntaxTree, captures: &Vec<usize>) -> (any: bool)
    ensures
        any == (unit_count(tree@, index_views(captures@)) > 0),
{
    let mut k: usize = 0;
    assert(index_views(captures@).take(0) =~= Seq::<int>::empty());
    while k < captures.len()
        invariant
            k <= captures@.len(),
            unit_count(tree@, index_views(captures@).take(k as int)) == 0,
        decreases captures@.len() - k,
    {
        let at = captures[k];
        proof {
            let upto = index_views(captures@).take(k + 1);
            assert(upto.drop_last() =~= index_views(captures@).take(k as int));
            assert(upto.last() == at as int);
            lemma_unit_count_grows(tree@, index_views(captures@), k + 1);
        }
        if at < tree.len() {
            let node = tree.node(at);
            let narrow = node.start_row == node.end_row && (node.end_column < node.start_column
                || node.end_column - node.start_column < MIN_UNIT_WIDTH);
            if !narrow {
                return true;
            }
        }
        k += 1;
    }
    assert(index_views(captures@).take(k as int) =~= index_views(captures@));
    false
}

/// More captures give no fewer chunks.
pub proof fn lemma_unit_count_grows(nodes: Seq<NodeFacts>, captures: Seq<int>, upto: int)
    requires
        0 <= upto <= captures.len(),
    ensures
        unit_count(nodes, captures.take(upto)) <= unit_count(nodes, captures),
    decreases captures.len() - upto,
{
    if upto < captures.len() {
        lemma_unit_count_grows(nodes, captures, upto + 1);
        assert(captures.take(upto + 1).drop_last() =~= captures.take(upto));
    } else {
        assert(captures.take(upto) =~= captures);
    }
}

/// The blocks captured in a file, as plain values.
pub open spec fn blocks_view(blocks: Option<&Vec<usize>>) -> Option<Seq<int>> {
    match blocks {
        Some(captures) => Some(index_views(captures@)),
        None => None,
    }
}

/// The chunks of a file, given the nodes that the language's pattern
/// captured as `units` and those that the general pattern captured as
/// `blocks`, which is `None` where that pattern gave no answer. An empty
/// source has no chunks. Else the chunks are those of the units; where there
/// are none, those of the blocks, or of the sections of the source where the
/// general pattern gave no answer; where there are none either, the whole
/// file; and every chunk that takes more than `max_size` bytes is split.
pub fn assemble_chunks(
    tree: &SyntaxTree,
    source: &str,
    path: &str,
    language: &str,
    units: &Vec<usize>,
    blocks: Option<&Vec<usize>>,
    max_size: usize,
    overlap_percentage: usize,
) -> (chunks: Vec<CodeChunk>)
    ensures
        chunk_views(chunks@) == chunks_of_file(
            tree@,
            source@,
            path@,
            language@,
            index_views(units@),
            blocks_view(blocks),
            max_size as int,
            overlap_percentage as int,
        ),
        all_well_formed(chunk_views(chunks@)),
{
    if source.is_empty() {
        let chunks: Vec<CodeChunk> = Vec::new();
        return chunks;
    }
    let first = structured_chunks(tree, source, path, language, units);
    let found = if first.len() > 0 {
        first
    } else {
        match blocks {
            Some(captures) => general_chunks(tree, source, path, language, captures),
            None => section_chunks(source, path, language),
        }
    };
    finish_chunks(found, tree, source, path, language, max_size, overlap_percentage)
}

/// Whether a query from the node at `node` is repeated from the captured
/// node at `at`.
pub fn should_descend(tree: &SyntaxTree, node: usize, at: usize) -> (descend: bool)
    ensures
        descend == is_descended(tree@, node as int, at as int),
{
    if !(node < at && at < tree.len()) {
        return false;
    }
    let inner = tree.node(at);
    let narrow = inner.start_row == inner.end_row && (inner.end_column < inner.start_column
        || inner.end_column - inner.start_column < MIN_UNIT_WIDTH);
    !narrow && tree.subtree_end(at) <= tree.subtree_end(node) && is_container(
        inner.kind.as_str(),
    )
}

/// Whatever the patterns capture in a file: an empty source has no chunks;
/// any other has at least one; and no chunk takes more than `max_size` bytes,
/// unless it is a single character that does, which none is where `max_size`
/// is at least 4.
pub proof fn lemma_chunks_of_file(
    nodes: Seq<NodeFacts>,
    source: Seq<char>,
    path: Seq<char>,
    language: Seq<char>,
    units: Seq<int>,
    blocks: Option<Seq<int>>,
    max_size: int,
    percentage: int,
)
    requires
        0 <= max_size,
        0 <= percentage,
    ensures
        source.len() == 0 ==> chunks_of_file(
            nodes,
            source,
            path,
            language,
            units,
            blocks,
            max_size,
            percentage,
        ).len() == 0,
        source.len() > 0 ==> chunks_of_file(
            nodes,
            source,
            path,
            language,
            units,
            blocks,
            max_size,
            percentage,
        ).len() >= 1,
        all_fit(
            chunks_of_file(nodes, source, path, language, units, blocks, max_size, percentage),
            max_size,
        ),
        max_size >= 4 ==> forall|i: int|
            0 <= i < chunks_of_file(
                nodes,
                source,
                path,
                language,
                units,
                blocks,
                max_size,
                percentage,
            ).len() ==> byte_size(
                (#[trigger] chunks_of_file(
                    nodes,
                    source,
                    path,
                    language,
                    units,
                    blocks,
                    max_size,
                    percentage,
                )[i]).content,
            ) <= max_size,
{
    let found = found_of(nodes, source, path, language, units, blocks);
    let whole = seq![file_chunk(nodes, source, path, language)];
    lemma_split_all_keeps_some(whole, max_size, percentage);
    lemma_split_all_keeps_some(found, max_size, percentage);
    lemma_split_all_fit_or_are_single(whole, max_size, percentage);
    lemma_split_all_fit_or_are_single(found, max_size, percentage);
    if max_size >= 4 {
        lemma_split_all_fit_wide_limit(whole, max_size, percentage);
        lemma_split_all_fit_wide_limit(found, max_size, percentage);
    }
}

} // verus!
