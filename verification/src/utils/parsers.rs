//! The languages whose files can be chunked.

use vstd::prelude::*;
use crate::chunking::text::{chars_of, is_text};
use crate::grammar::{
    go_grammar, javascript_grammar, python_grammar, rust_grammar, tsx_grammar, typescript_grammar,
};

verus! {

/// A language with a grammar.
#[derive(Debug, Clone, Copy, PartialEq, Eq, Structural)]
pub enum SupportedParsers {
    Rust,
    Go,
    Python,
    JavaScript,
    TypeScript,
    #[allow(clippy::upper_case_acronyms)]
    TSX,
}

impl SupportedParsers {
    /// The name of the language, which is the name of its variant.
    pub open spec fn name(self) -> Seq<char> {
        match self {
            SupportedParsers::Rust => "Rust"@,
            SupportedParsers::Go => "Go"@,
            SupportedParsers::Python => "Python"@,
            SupportedParsers::JavaScript => "JavaScript"@,
            SupportedParsers::TypeScript => "TypeScript"@,
            SupportedParsers::TSX => "TSX"@,
        }
    }

    /// The file extension, without its dot, of the files of the language.
    pub open spec fn extension(self) -> Seq<char> {
        match self {
            SupportedParsers::Rust => "rs"@,
            SupportedParsers::Go => "go"@,
            SupportedParsers::Python => "py"@,
            SupportedParsers::JavaScript => "js"@,
            SupportedParsers::TypeScript => "ts"@,
            SupportedParsers::TSX => "tsx"@,
        }
    }

    /// The language whose files end in `extension`, if there is one.
    pub open spec fn of_extension(extension: Seq<char>) -> Option<SupportedParsers> {
        if extension == "rs"@ {
            Some(SupportedParsers::Rust)
        } else if extension == "go"@ {
            Some(SupportedParsers::Go)
        } else if extension == "py"@ {
            Some(SupportedParsers::Python)
        } else if extension == "js"@ {
            Some(SupportedParsers::JavaScript)
        } else if extension == "ts"@ {
            Some(SupportedParsers::TypeScript)
        } else if extension == "tsx"@ {
            Some(SupportedParsers::TSX)
        } else {
            None
        }
    }

    /// The grammar of the language.
    pub fn language(&self) -> (grammar: tree_sitter::Language) {
        match self {
            SupportedParsers::Rust => rust_grammar(),
            SupportedParsers::Go => go_grammar(),
            SupportedParsers::Python => python_grammar(),
            SupportedParsers::JavaScript => javascript_grammar(),
            SupportedParsers::TypeScript => typescript_grammar(),
            SupportedParsers::TSX => tsx_grammar(),
        }
    }

    /// The name of the language.
    pub fn to_string(&self) -> (name: String)
        ensures
            name@ == self.name(),
    {
        match self {
            SupportedParsers::Rust => "Rust".to_owned(),
            SupportedParsers::Go => "Go".to_owned(),
            SupportedParsers::Python => "Python".to_owned(),
            SupportedParsers::JavaScript => "JavaScript".to_owned(),
            SupportedParsers::TypeScript => "TypeScript".to_owned(),
            SupportedParsers::TSX => "TSX".to_owned(),
        }
    }

    /// The language of the files that end in `extension`, given without its
    /// dot; none for any other extension.
    pub fn from_extension(extension: &str) -> (language: Option<SupportedParsers>)
        ensures
            language == SupportedParsers::of_extension(extension@),
    {
        let chars = chars_of(extension);
        if is_text(&chars, "rs") {
            Some(SupportedParsers::Rust)
        } else if is_text(&chars, "go") {
            Some(SupportedParsers::Go)
        } else if is_text(&chars, "py") {
            Some(SupportedParsers::Python)
        } else if is_text(&chars, "js") {
            Some(SupportedParsers::JavaScript)
        } else if is_text(&chars, "ts") {
            Some(SupportedParsers::TypeScript)
        } else if is_text(&chars, "tsx") {
            Some(SupportedParsers::TSX)
        } else {
            None
        }
    }
}

} // verus!
