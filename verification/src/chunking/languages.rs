//! The patterns, by language, that find the syntactic units worth a chunk of
//! their own.

use vstd::prelude::*;
use crate::grammar::compiled;
use crate::utils::parsers::SupportedParsers;
use super::text::{chars_of, is_text};

verus! {

/// Units of Rust: functions, structs, methods of impls and of traits, enums,
/// modules and macros.
pub const RUST_UNITS: &'static str = "(
                (function_item) @function
                (struct_item) @struct
                (impl_item
                    body: (declaration_list
                        (function_item) @impl_method))
                (trait_item
                    body: (declaration_list
                        (function_item) @trait_method))
                (enum_item) @enum
                (mod_item) @mod
                (macro_definition) @macro
                )";

/// Units of Python: functions, classes, decorated definitions and the
/// compound statements.
pub const PYTHON_UNITS: &'static str = "(
                (function_definition) @function
                (class_definition) @class
                (decorated_definition) @decorated
                (if_statement) @if
                (for_statement) @for
                (while_statement) @while
                )";

/// Units of JavaScript and TypeScript: functions, methods, classes, arrow
/// functions, exports and declarations.
pub const SCRIPT_UNITS: &'static str = "(
                (function_declaration) @function
                (method_definition) @method
                (class_declaration) @class
                (arrow_function) @arrow_function
                (export_statement) @export
                (lexical_declaration) @declaration
                )";

/// Units of Go: functions, methods, type declarations, structs and
/// interfaces.
pub const GO_UNITS: &'static str = "(
                (function_declaration) @function
                (method_declaration) @method
                (type_declaration) @type
                (struct_type) @struct
                (interface_type) @interface
                )";

/// Units of any language: blocks, statements and declarations.
pub const GENERAL_UNITS: &'static str = "(
            (block) @block
            (statement) @statement
            (declaration) @declaration
        )";

/// The pattern for the units of `language`.
pub open spec fn units_of(language: SupportedParsers) -> Seq<char> {
    match language {
        SupportedParsers::Rust => RUST_UNITS@,
        SupportedParsers::Python => PYTHON_UNITS@,
        SupportedParsers::JavaScript => SCRIPT_UNITS@,
        SupportedParsers::TypeScript => SCRIPT_UNITS@,
        SupportedParsers::TSX => SCRIPT_UNITS@,
        SupportedParsers::Go => GO_UNITS@,
    }
}

/// The pattern for the units of `language`.
pub fn structured_query(language: &SupportedParsers) -> (pattern: &'static str)
    ensures
        pattern@ == units_of(*language),
{
    match language {
        SupportedParsers::Rust => RUST_UNITS,
        SupportedParsers::Python => PYTHON_UNITS,
        SupportedParsers::JavaScript => SCRIPT_UNITS,
        SupportedParsers::TypeScript => SCRIPT_UNITS,
        SupportedParsers::TSX => SCRIPT_UNITS,
        SupportedParsers::Go => GO_UNITS,
    }
}

/// The pattern that is tried where the units of the language gave nothing.
pub fn general_query() -> (pattern: &'static str)
    ensures
        pattern@ == GENERAL_UNITS@,
{
    GENERAL_UNITS
}

/// The pattern for the units of `language`, compiled for `grammar`, or why
/// it cannot be compiled.
pub fn compile_units(grammar: &tree_sitter::Language, language: &SupportedParsers) -> (outcome:
    Result<tree_sitter::Query, tree_sitter::QueryError>)
    ensures
        match outcome {
            Ok(query) => compiled(*grammar, units_of(*language)) == Some(query),
            Err(_) => compiled(*grammar, units_of(*language)) is None,
        },
{
    tree_sitter::Query::new(grammar, structured_query(language))
}

/// The general pattern, compiled for `grammar`, or why it cannot be
/// compiled.
pub fn compile_general(grammar: &tree_sitter::Language) -> (outcome: Result<
    tree_sitter::Query,
    tree_sitter::QueryError,
>)
    ensures
        match outcome {
            Ok(query) => compiled(*grammar, GENERAL_UNITS@) == Some(query),
            Err(_) => compiled(*grammar, GENERAL_UNITS@) is None,
        },
{
    tree_sitter::Query::new(grammar, general_query())
}

/// A node of this kind holds members that are units themselves: an impl or
/// a trait.
pub open spec fn is_container_kind(kind: Seq<char>) -> bool {
    kind == "impl_item"@ || kind == "trait_item"@
}

/// Whether a node of kind `kind` holds members that are units themselves.
pub fn is_container(kind: &str) -> (container: bool)
    ensures
        container == is_container_kind(kind@),
{
    let label = chars_of(kind);
    is_text(&label, "impl_item") || is_text(&label, "trait_item")
}

} // verus!
