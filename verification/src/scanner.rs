//! Reading one file into chunks, and choosing what a scan reads.

use vstd::prelude::*;
use crate::chunking::bytes::byte_size;
use crate::chunking::chunker::{
    extract_chunks, extracted_of, limit_of, share_of, DEFAULT_MAX_CHUNK_SIZE,
};
use crate::chunking::tiers::{all_fit, all_well_formed};
use crate::chunking::types::chunk_views;
use crate::chunking::text::{chars_of, is_text};
use crate::chunking::CodeChunk;
use crate::error::Error;
use crate::grammar::parse_text;
use crate::utils::parsers::SupportedParsers;

verus! {

/// How the files of a scan are chunked.
#[derive(Debug, Clone, Copy, PartialEq, Eq)]
pub struct ScannerConfig {
    /// Most bytes a chunk may take; the default where there is none.
    pub chunk_size_limit: Option<usize>,
    /// Overlap between fragments in hundredths of the limit; the default
    /// where there is none.
    pub overlap_percentage: Option<usize>,
}

impl ScannerConfig {
    /// Most bytes a chunk may take under this configuration.
    pub open spec fn limit(self) -> usize {
        match self.chunk_size_limit {
            Some(limit) => limit,
            None => DEFAULT_MAX_CHUNK_SIZE,
        }
    }
}

/// A directory of this name holds nothing to scan.
pub open spec fn is_skipped_name(name: Seq<char>) -> bool {
    name == "target"@ || name == ".git"@ || name == "node_modules"@
}

/// Whether a scan reads the entry: a file always; a directory unless its name
/// is `target`, `.git` or `node_modules`, or its name is no text.
pub open spec fn is_wanted(is_directory: bool, name: Option<Seq<char>>) -> bool {
    !is_directory || match name {
        Some(text) => !is_skipped_name(text),
        None => false,
    }
}

/// The name of an entry, as plain values.
pub open spec fn name_view(name: Option<&str>) -> Option<Seq<char>> {
    match name {
        Some(text) => Some(text@),
        None => None,
    }
}

/// Whether a scan reads the entry with this name, which is a directory or is
/// not.
pub fn is_wanted_directory(is_directory: bool, name: Option<&str>) -> (wanted: bool)
    ensures
        wanted == is_wanted(is_directory, name_view(name)),
{
    if !is_directory {
        return true;
    }
    match name {
        Some(text) => {
            let chars = chars_of(text);
            !(is_text(&chars, "target") || is_text(&chars, ".git") || is_text(
                &chars,
                "node_modules",
            ))
        },
        None => false,
    }
}

/// Parses `content`, the text of the file at `path`, as `language` and
/// gives its chunks. The parser may refuse the grammar or give no tree; where
/// it gives one, the chunks are those of the file for that tree and the
/// limits of `config`: a text that is empty has no chunks, any other has at least
/// one, no chunk ends before it starts, and none takes more bytes than the
/// limit of `config`, unless it is a single character that does.
pub fn parse_file(
    parser: &mut tree_sitter::Parser,
    path: &str,
    content: &str,
    language: &SupportedParsers,
    config: &ScannerConfig,
) -> (outcome: Result<Vec<CodeChunk>, Error>)
    ensures
        match outcome {
            Ok(chunks) => {
                &&& exists|tree: tree_sitter::Tree, grammar: tree_sitter::Language|
                    chunk_views(chunks@) == #[trigger] extracted_of(
                        tree,
                        grammar,
                        content@,
                        path@,
                        *language,
                        config.limit() as int,
                        share_of(config.overlap_percentage) as int,
                    )
                &&& content@.len() == 0 ==> chunks@.len() == 0
                &&& content@.len() > 0 ==> chunks@.len() >= 1
                &&& all_fit(chunk_views(chunks@), config.limit() as int)
                &&& config.limit() >= 4 ==> forall|i: int|
                    0 <= i < chunks@.len() ==> byte_size((#[trigger] chunks@[i])@.content)
                        <= config.limit()
                &&& all_well_formed(chunk_views(chunks@))
            },
            Err(Error::ParsingFailed(at)) => at@ == path@,
            Err(Error::TreeSitter(_)) => true,
            Err(_) => false,
        },
{
    let grammar = language.language();
    match parser.set_language(&grammar) {
        Ok(_) => {},
        Err(refusal) => {
            return Err(Error::TreeSitter(refusal));
        },
    }
    match parse_text(parser, content) {
        Some(tree) => {
            let chunks = extract_chunks(
                &tree,
                content,
                path,
                language,
                config.chunk_size_limit,
                config.overlap_percentage,
            );
            proof {
                let grammar = choose|grammar: tree_sitter::Language|
                    chunk_views(chunks@) == #[trigger] extracted_of(
                        tree,
                        grammar,
                        content@,
                        path@,
                        *language,
                        limit_of(config.chunk_size_limit) as int,
                        share_of(config.overlap_percentage) as int,
                    );
                assert(chunk_views(chunks@) == extracted_of(
                    tree,
                    grammar,
                    content@,
                    path@,
                    *language,
                    config.limit() as int,
                    share_of(config.overlap_percentage) as int,
                ));
            }
            Ok(chunks)
        },
        None => Err(Error::ParsingFailed(path.to_owned())),
    }
}

} // verus!
