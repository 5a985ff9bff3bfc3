//! The chunk record.

use vstd::prelude::*;
use vstd::string::StringExecFns;

verus! {

/// A bounded unit of normalized source text with its origin.
#[derive(Debug, Clone, PartialEq, Eq)]
pub struct CodeChunk {
    /// Normalized text of the syntactic unit, or of a fragment of it.
    pub content: String,
    /// Kind of the syntax node the chunk came from, possibly followed by
    /// `:name`, or by `_part` for a fragment.
    pub node_type: String,
    /// First line of the chunk in the file, counted from zero.
    pub start_line: usize,
    /// Last line of the chunk in the file, counted from zero.
    pub end_line: usize,
    /// Path of the file, passed through unchanged.
    pub path: String,
    /// Name of the language the file was read as.
    pub language: String,
}

/// What a chunk is, as plain values.
pub struct ChunkView {
    pub content: Seq<char>,
    pub node_type: Seq<char>,
    pub start_line: usize,
    pub end_line: usize,
    pub path: Seq<char>,
    pub language: Seq<char>,
}

impl View for CodeChunk {
    type V = ChunkView;

    open spec fn view(&self) -> ChunkView {
        ChunkView {
            content: self.content@,
            node_type: self.node_type@,
            start_line: self.start_line,
            end_line: self.end_line,
            path: self.path@,
            language: self.language@,
        }
    }
}

impl ChunkView {
    /// The chunk does not end before it starts.
    pub open spec fn well_formed(self) -> bool {
        self.start_line <= self.end_line
    }

    /// What tells the chunk from the others of a code base: its path, a
    /// colon, and its tag.
    pub open spec fn storage_key(self) -> Seq<char> {
        self.path + ":"@ + self.node_type
    }
}

/// The chunks of a list, each as plain values.
pub open spec fn chunk_views(chunks: Seq<CodeChunk>) -> Seq<ChunkView> {
    chunks.map_values(|chunk: CodeChunk| chunk@)
}

impl CodeChunk {
    /// The key under which the chunk is stored, so that a later chunk of the
    /// same path and tag takes its place.
    pub fn storage_key(&self) -> (key: String)
        ensures
            key@ == self@.storage_key(),
    {
        self.path.clone().concat(":").concat(self.node_type.as_str())
    }

    /// A copy of the chunk.
    pub fn duplicate(&self) -> (copy: CodeChunk)
        ensures
            copy@ == self@,
    {
        CodeChunk {
            content: self.content.clone(),
            node_type: self.node_type.clone(),
            start_line: self.start_line,
            end_line: self.end_line,
            path: self.path.clone(),
            language: self.language.clone(),
        }
    }
}

} // verus!
