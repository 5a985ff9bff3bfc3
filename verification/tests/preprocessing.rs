use code_sherpa::chunking::preprocess::{
    is_comment, node_text, normalize_whitespace, preprocess_code,
};
use code_sherpa::chunking::syntax::{SyntaxNode, SyntaxTree};

fn node(kind: &str, named: bool, bytes: (usize, usize), descendants: usize) -> SyntaxNode {
    SyntaxNode {
        kind: kind.to_string(),
        named,
        start_byte: bytes.0,
        end_byte: bytes.1,
        start_row: 0,
        start_column: bytes.0,
        end_row: 0,
        end_column: bytes.1,
        descendants,
    }
}

#[test]
fn runs_of_spaces_collapse_at_the_start_too() {
    assert_eq!(normalize_whitespace("  a   b  \n   c"), " a b \n c");
    assert_eq!(normalize_whitespace("  a"), " a");
    assert_eq!(normalize_whitespace(" a"), " a");
}

#[test]
fn line_feeds_all_stay() {
    assert_eq!(normalize_whitespace("\n\n a\n\n\nb\n"), "\n\n a\n\n\nb\n");
}

#[test]
fn tabs_are_not_spaces() {
    assert_eq!(normalize_whitespace("a\t\t b\t"), "a\t\t b\t");
}

#[test]
fn text_of_spaces_alone_is_one_space() {
    assert_eq!(normalize_whitespace("     "), " ");
    assert_eq!(normalize_whitespace(" "), " ");
    assert_eq!(normalize_whitespace(""), "");
}

#[test]
fn normalizing_again_changes_nothing() {
    for text in ["  a   b  \n   c", "x  ", " \n  \n", "fn  main( ) {  }", "é  ü   ", "\t  \t  "] {
        let once = normalize_whitespace(text);
        assert_eq!(normalize_whitespace(&once), once);
    }
}

#[test]
fn node_text_is_the_byte_range() {
    assert_eq!(node_text("fn main() {}", 3, 7), "main");
    assert_eq!(node_text("fn main() {}", 0, 12), "fn main() {}");
    assert_eq!(node_text("fn main() {}", 5, 5), "");
}

#[test]
fn node_text_outside_the_source_is_empty() {
    assert_eq!(node_text("fn main() {}", 3, 13), "");
    assert_eq!(node_text("fn main() {}", 13, 14), "");
    assert_eq!(node_text("fn main() {}", 7, 3), "");
    assert_eq!(node_text("", 0, 1), "");
}

#[test]
fn node_text_inside_a_character_is_empty() {
    assert_eq!(node_text("héllo", 0, 3), "hé");
    assert_eq!(node_text("héllo", 0, 2), "");
    assert_eq!(node_text("héllo", 2, 4), "");
    assert_eq!(node_text("héllo", 3, 6), "llo");
}

#[test]
fn comment_kinds_hold_the_word() {
    assert!(is_comment("comment"));
    assert!(is_comment("line_comment"));
    assert!(is_comment("block_comment"));
    assert!(is_comment("doc_comment_marker"));
    assert!(!is_comment("commen"));
    assert!(!is_comment("Comment"));
    assert!(!is_comment("identifier"));
    assert!(!is_comment(""));
}

#[test]
fn preprocess_joins_the_leaves_and_leaves_comments_out() {
    let source = "a   b // c\nd";
    let tree = SyntaxTree {
        nodes: vec![
            node("source_file", true, (0, 12), 5),
            node("string", true, (0, 5), 1),
            node("string", true, (1, 5), 1),
            node("line_comment", true, (6, 10), 1),
            node("identifier", true, (11, 12), 1),
        ],
    };
    assert_eq!(preprocess_code(&tree, 0, source), "a b bd");
    assert_eq!(preprocess_code(&tree, 1, source), "a b");
    assert_eq!(preprocess_code(&tree, 2, source), " b");
    assert_eq!(preprocess_code(&tree, 3, source), "");
    assert_eq!(preprocess_code(&tree, 5, source), "");
}

#[test]
fn preprocess_reads_below_a_node_only_if_it_has_named_children() {
    let source = "fn a() { b }";
    let tree = SyntaxTree {
        nodes: vec![
            node("function_item", true, (0, 12), 10),
            node("fn", false, (0, 2), 1),
            node("identifier", true, (3, 4), 1),
            node("parameters", true, (4, 6), 3),
            node("(", false, (4, 5), 1),
            node(")", false, (5, 6), 1),
            node("block", true, (7, 12), 4),
            node("{", false, (7, 8), 1),
            node("identifier", true, (9, 10), 1),
            node("}", false, (11, 12), 1),
        ],
    };
    assert_eq!(preprocess_code(&tree, 0, source), "fna(){b}");
    assert_eq!(preprocess_code(&tree, 3, source), "()");
    assert_eq!(preprocess_code(&tree, 6, source), "{b}");
}

#[test]
fn comment_subtree_is_skipped_whole() {
    let source = "/* x */ y";
    let tree = SyntaxTree {
        nodes: vec![
            node("source_file", true, (0, 9), 5),
            node("block_comment", true, (0, 7), 3),
            node("/*", false, (0, 2), 1),
            node("doc", true, (3, 4), 1),
            node("identifier", true, (8, 9), 1),
        ],
    };
    assert_eq!(preprocess_code(&tree, 0, source), "y");
    assert_eq!(preprocess_code(&tree, 1, source), "");
}

#[test]
fn file_of_a_single_comment_has_no_text() {
    let source = "// nothing here\n";
    let tree = SyntaxTree {
        nodes: vec![
            node("source_file", true, (0, 16), 3),
            node("line_comment", true, (0, 15), 2),
            node("//", false, (0, 2), 1),
        ],
    };
    assert_eq!(preprocess_code(&tree, 0, source), "");
}

#[test]
fn subtree_that_runs_past_the_tree_is_cut_off() {
    let source = "ab";
    let tree = SyntaxTree {
        nodes: vec![
            node("pair", true, (0, 2), 100),
            node("identifier", true, (0, 1), 0),
            node("identifier", true, (1, 2), 7),
        ],
    };
    assert_eq!(preprocess_code(&tree, 0, source), "ab");
    assert_eq!(preprocess_code(&tree, 1, source), "a");
}
