//! Turns the syntax tree of a source file into bounded, overlapping chunks of
//! normalized text.
//!
//! `chunking` holds the chunk record, the tree as this library sees it, the
//! normalization of a node's text, the tiers that find chunks in a file, and
//! the splitter that bounds their size, counted in bytes. `grammar`
//! holds all that is taken on trust from the parsing library. `scanner` reads
//! one file into chunks; `utils`, `embedding` and `error` hold what the
//! program around the library needs to agree on.

pub mod chunking;
pub mod embedding;
pub mod error;
pub mod grammar;
pub mod scanner;
pub mod utils;
