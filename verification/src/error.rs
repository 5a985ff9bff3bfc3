//! What can go wrong.

use vstd::prelude::*;
use vstd::string::StringExecFns;

verus! {

/// An error of the library or of the program around it.
#[derive(Debug, PartialEq, Eq)]
pub enum Error {
    /// The parser gave no tree for the file at this path.
    ParsingFailed(String),
    /// An argument was not understood.
    InvalidArgument(String),
    /// Nothing is at this path.
    NotFound(String),
    /// The scan did not finish.
    ScanFailed,
    /// No embeddings came back.
    Embedding(String),
    /// The parser did not take the grammar.
    TreeSitter(tree_sitter::LanguageError),
    /// Something that was needed is missing.
    Missing(String),
    /// A payload could not be written down.
    Payload(String),
}

/// The text that `Display` of tree-sitter gives for the error. Nothing is
/// claimed of it.
#[verifier::external_body]
fn language_error_text(error: &tree_sitter::LanguageError) -> (text: String) {
    format!("{}", error)
}

/// The words that begin the message of an error.
pub open spec fn message_prefix(error: Error) -> Seq<char> {
    match error {
        Error::ParsingFailed(_) => "Failed to parse file: "@,
        Error::InvalidArgument(_) => "Invalid Argument: "@,
        Error::NotFound(_) => "Path not found: "@,
        Error::ScanFailed => "Scan failed"@,
        Error::Embedding(_) => "Failed to generate embeddings: "@,
        Error::TreeSitter(_) => "Tree-sitter error: "@,
        Error::Missing(_) => "Missing "@,
        Error::Payload(_) => "Unable to serialize payload: "@,
    }
}

impl Error {
    /// The message of the error: the words for its kind, then what it
    /// holds. For an error of the parser these words are followed by the
    /// parser's own.
    pub fn to_string(&self) -> (message: String)
        ensures
            match *self {
                Error::ParsingFailed(path) => message@ == message_prefix(*self) + path@,
                Error::InvalidArgument(what) => message@ == message_prefix(*self) + what@,
                Error::NotFound(path) => message@ == message_prefix(*self) + path@,
                Error::ScanFailed => message@ == message_prefix(*self),
                Error::Embedding(what) => message@ == message_prefix(*self) + what@,
                Error::TreeSitter(_) => exists|words: Seq<char>|
                    message@ == message_prefix(*self) + words,
                Error::Missing(what) => message@ == message_prefix(*self) + what@,
                Error::Payload(what) => message@ == message_prefix(*self) + what@,
            },
    {
        match self {
            Error::ParsingFailed(path) => "Failed to parse file: ".to_owned().concat(
                path.as_str(),
            ),
            Error::InvalidArgument(what) => "Invalid Argument: ".to_owned().concat(what.as_str()),
            Error::NotFound(path) => "Path not found: ".to_owned().concat(path.as_str()),
            Error::ScanFailed => "Scan failed".to_owned(),
            Error::Embedding(what) => "Failed to generate embeddings: ".to_owned().concat(
                what.as_str(),
            ),
            Error::TreeSitter(error) => {
                let words = language_error_text(error);
                let message = "Tree-sitter error: ".to_owned().concat(words.as_str());
                assert(message@ == message_prefix(*self) + words@);
                message
            },
            Error::Missing(what) => "Missing ".to_owned().concat(what.as_str()),
            Error::Payload(what) => "Unable to serialize payload: ".to_owned().concat(
                what.as_str(),
            ),
        }
    }
}

} // verus!
