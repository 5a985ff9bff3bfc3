pub mod boundary;
pub mod bytes;
pub mod captures;
pub mod chunker;
pub mod context;
pub mod languages;
pub mod preprocess;
pub mod sections;
pub mod splitter;
pub mod syntax;
pub mod text;
pub mod tiers;
pub mod types;

pub use chunker::extract_chunks;
pub use types::CodeChunk;
