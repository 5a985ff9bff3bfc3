use code_sherpa::chunking::tiers::{
    assemble_chunks, finish_chunks, general_chunks, should_descend, split_chunks,
    structured_chunks, whole_file_chunk,
};
use code_sherpa::chunking::captures::locate_all;
use code_sherpa::chunking::syntax::{Capture, SyntaxNode, SyntaxTree};
use code_sherpa::chunking::CodeChunk;

fn node(
    kind: &str,
    named: bool,
    bytes: (usize, usize),
    start: (usize, usize),
    end: (usize, usize),
    descendants: usize,
) -> SyntaxNode {
    SyntaxNode {
        kind: kind.to_string(),
        named,
        start_byte: bytes.0,
        end_byte: bytes.1,
        start_row: start.0,
        start_column: start.1,
        end_row: end.0,
        end_column: end.1,
        descendants,
    }
}

fn chunk(content: &str, node_type: &str, start_line: usize, end_line: usize) -> CodeChunk {
    CodeChunk {
        content: content.to_string(),
        node_type: node_type.to_string(),
        start_line,
        end_line,
        path: "shape.rs".to_string(),
        language: "Rust".to_string(),
    }
}

const TRAIT: &str = "trait Shape {\n    fn area();\n    fn name();\n}\n";

fn trait_tree() -> SyntaxTree {
    SyntaxTree {
        nodes: vec![
            node("source_file", true, (0, 46), (0, 0), (4, 0), 18),
            node("trait_item", true, (0, 45), (0, 0), (3, 1), 17),
            node("trait", false, (0, 5), (0, 0), (0, 5), 1),
            node("type_identifier", true, (6, 11), (0, 6), (0, 11), 1),
            node("declaration_list", true, (12, 45), (0, 12), (3, 1), 13),
            node("{", false, (12, 13), (0, 12), (0, 13), 1),
            node("function_signature_item", true, (18, 28), (1, 4), (1, 14), 5),
            node("fn", false, (18, 20), (1, 4), (1, 6), 1),
            node("identifier", true, (21, 25), (1, 7), (1, 11), 1),
            node("parameters", true, (25, 27), (1, 11), (1, 13), 1),
            node(";", false, (27, 28), (1, 13), (1, 14), 1),
            node("function_signature_item", true, (33, 43), (2, 4), (2, 14), 5),
            node("fn", false, (33, 35), (2, 4), (2, 6), 1),
            node("identifier", true, (36, 40), (2, 7), (2, 11), 1),
            node("parameters", true, (40, 42), (2, 11), (2, 13), 1),
            node(";", false, (42, 43), (2, 13), (2, 14), 1),
            node("}", false, (44, 45), (3, 0), (3, 1), 1),
            node("line_comment", true, (45, 46), (3, 1), (4, 0), 1),
        ],
    }
}

#[test]
fn container_with_two_methods_gives_three_chunks() {
    let tree = trait_tree();
    assert_eq!(
        structured_chunks(&tree, TRAIT, "shape.rs", "Rust", &vec![6, 11, 1]),
        vec![
            chunk("fnarea();", "function_signature_item:area", 1, 1),
            chunk("fnname();", "function_signature_item:name", 2, 2),
            chunk("traitShape{fnarea();fnname();}", "trait_item:Shape", 0, 3),
        ]
    );
}

#[test]
fn unit_in_a_named_parent_gets_a_banner() {
    let tree = trait_tree();
    assert_eq!(
        structured_chunks(&tree, TRAIT, "shape.rs", "Rust", &vec![4]),
        vec![chunk(
            "// In trait_item: Shape\n{fnarea();fnname();}",
            "declaration_list",
            0,
            3
        )]
    );
}

#[test]
fn unit_on_one_line_of_less_than_three_columns_is_left_out() {
    let tree = trait_tree();
    assert_eq!(structured_chunks(&tree, TRAIT, "shape.rs", "Rust", &vec![9, 7, 5]), vec![]);
    assert_eq!(
        structured_chunks(&tree, TRAIT, "shape.rs", "Rust", &vec![9, 8]),
        vec![chunk(
            "// In function_signature_item: area\narea",
            "identifier",
            1,
            1
        )]
    );
}

#[test]
fn unit_of_several_lines_is_kept_however_narrow() {
    let tree = SyntaxTree {
        nodes: vec![node("block", true, (0, 3), (0, 5), (1, 1), 1)],
    };
    assert_eq!(
        structured_chunks(&tree, "{\n}", "shape.rs", "Rust", &vec![0]),
        vec![chunk("{\n}", "block", 0, 1)]
    );
}

#[test]
fn unit_that_ends_before_it_starts_is_left_out() {
    let tree = SyntaxTree {
        nodes: vec![node("block", true, (0, 3), (0, 5), (0, 1), 1)],
    };
    assert_eq!(structured_chunks(&tree, "{ }", "shape.rs", "Rust", &vec![0]), vec![]);
}

#[test]
fn capture_that_the_tree_does_not_have_is_left_out() {
    let tree = trait_tree();
    assert_eq!(structured_chunks(&tree, TRAIT, "shape.rs", "Rust", &vec![18, 400]), vec![]);
    assert_eq!(general_chunks(&tree, TRAIT, "shape.rs", "Rust", &vec![18, 400]), vec![]);
}

#[test]
fn captures_keep_their_order_and_their_repeats() {
    let tree = trait_tree();
    let chunks = structured_chunks(&tree, TRAIT, "shape.rs", "Rust", &vec![11, 6, 11]);
    let tags: Vec<&str> = chunks.iter().map(|chunk| chunk.node_type.as_str()).collect();
    assert_eq!(
        tags,
        vec![
            "function_signature_item:name",
            "function_signature_item:area",
            "function_signature_item:name"
        ]
    );
}

#[test]
fn block_of_less_than_three_more_lines_is_left_out() {
    let tree = trait_tree();
    assert_eq!(general_chunks(&tree, TRAIT, "shape.rs", "Rust", &vec![6, 11]), vec![]);
    assert_eq!(
        general_chunks(&tree, TRAIT, "shape.rs", "Rust", &vec![6, 1, 4, 0]),
        vec![
            chunk("traitShape{fnarea();fnname();}", "trait_item", 0, 3),
            chunk("{fnarea();fnname();}", "declaration_list", 0, 3),
            chunk("traitShape{fnarea();fnname();}", "source_file", 0, 4),
        ]
    );
}

#[test]
fn whole_file_is_one_chunk_from_line_zero() {
    let tree = trait_tree();
    assert_eq!(
        whole_file_chunk(&tree, TRAIT, "shape.rs", "Rust"),
        chunk("traitShape{fnarea();fnname();}", "file", 0, 4)
    );
}

#[test]
fn whole_file_of_a_tree_without_nodes_is_empty() {
    let tree = SyntaxTree { nodes: vec![] };
    assert_eq!(whole_file_chunk(&tree, TRAIT, "shape.rs", "Rust"), chunk("", "file", 0, 0));
}

#[test]
fn small_function_is_found_again_in_the_whole_file() {
    let source = "fn a() { b(); }";
    let tree = SyntaxTree {
        nodes: vec![
            node("source_file", true, (0, 15), (0, 0), (0, 15), 2),
            node("function_item", true, (0, 15), (0, 0), (0, 15), 1),
        ],
    };
    let found = general_chunks(&tree, source, "shape.rs", "Rust", &vec![1]);
    assert_eq!(found, vec![]);
    assert_eq!(
        finish_chunks(found, &tree, source, "shape.rs", "Rust", 4096, 10),
        vec![chunk("fn a() { b(); }", "file", 0, 0)]
    );
}

#[test]
fn source_that_is_not_empty_always_has_a_chunk() {
    let tree = SyntaxTree { nodes: vec![node("source_file", true, (3, 3), (2, 0), (2, 0), 1)] };
    assert_eq!(
        finish_chunks(vec![], &tree, "\n \n", "shape.rs", "Rust", 4096, 10),
        vec![chunk("", "file", 0, 2)]
    );
}

#[test]
fn empty_source_has_no_chunk() {
    let tree = SyntaxTree { nodes: vec![node("source_file", true, (0, 0), (0, 0), (0, 0), 1)] };
    assert_eq!(finish_chunks(vec![], &tree, "", "shape.rs", "Rust", 4096, 10), vec![]);
}

#[test]
fn found_chunks_are_kept_and_split() {
    let tree = trait_tree();
    let found = vec![chunk("ab", "first", 3, 3), chunk("abc\ndef", "second", 5, 6)];
    assert_eq!(
        finish_chunks(found, &tree, TRAIT, "shape.rs", "Rust", 4, 0),
        vec![
            chunk("ab", "first", 3, 3),
            chunk("abc\n", "second_part", 5, 6),
            chunk("def", "second_part", 6, 6),
        ]
    );
}

#[test]
fn whole_file_is_split_too() {
    let tree = trait_tree();
    let chunks = finish_chunks(vec![], &tree, TRAIT, "shape.rs", "Rust", 10, 0);
    assert_eq!(
        chunks,
        vec![
            chunk("traitShape", "file_part", 0, 0),
            chunk("{fnarea();", "file_part", 0, 0),
            chunk("fnname();}", "file_part", 0, 0),
        ]
    );
}

#[test]
fn splitting_a_list_keeps_its_order() {
    let chunks = vec![chunk("abcdef", "a", 0, 0), chunk("x", "b", 1, 1), chunk("12345", "c", 2, 2)];
    assert_eq!(
        split_chunks(&chunks, 5, 0),
        vec![
            chunk("abcde", "a_part", 0, 0),
            chunk("f", "a_part", 0, 0),
            chunk("x", "b", 1, 1),
            chunk("12345", "c", 2, 2),
        ]
    );
    assert_eq!(split_chunks(&vec![], 5, 0), vec![]);
}

#[test]
fn capture_is_found_by_kind_and_range() {
    let tree = trait_tree();
    let capture = |kind: &str, start_byte: usize, end_byte: usize| Capture {
        kind: kind.to_string(),
        start_byte,
        end_byte,
    };
    assert_eq!(tree.locate(&capture("function_signature_item", 33, 43)), Some(11));
    assert_eq!(tree.locate(&capture("identifier", 21, 25)), Some(8));
    assert_eq!(tree.locate(&capture("identifier", 21, 26)), None);
    assert_eq!(tree.locate(&capture("fn", 21, 25)), None);
    assert_eq!(tree.locate(&capture("source_file", 0, 46)), Some(0));
}

#[test]
fn units_come_before_blocks_and_sections() {
    let tree = trait_tree();
    let blocks = vec![1];
    assert_eq!(
        assemble_chunks(&tree, TRAIT, "shape.rs", "Rust", &vec![6], Some(&blocks), 4096, 10),
        vec![chunk("fnarea();", "function_signature_item:area", 1, 1)]
    );
    assert_eq!(
        assemble_chunks(&tree, TRAIT, "shape.rs", "Rust", &vec![6], None, 4096, 10),
        vec![chunk("fnarea();", "function_signature_item:area", 1, 1)]
    );
}

#[test]
fn blocks_are_used_where_no_unit_is_left() {
    let tree = trait_tree();
    let blocks = vec![6, 1];
    assert_eq!(
        assemble_chunks(&tree, TRAIT, "shape.rs", "Rust", &vec![7, 9], Some(&blocks), 4096, 10),
        vec![chunk("traitShape{fnarea();fnname();}", "trait_item", 0, 3)]
    );
}

#[test]
fn sections_are_used_where_the_general_pattern_gave_no_answer() {
    let tree = trait_tree();
    assert_eq!(
        assemble_chunks(&tree, TRAIT, "shape.rs", "Rust", &vec![], None, 4096, 10),
        vec![chunk("trait Shape {\n    fn area();\n    fn name();\n}", "section", 0, 4)]
    );
}

#[test]
fn whole_file_is_used_where_nothing_else_is_left() {
    let tree = trait_tree();
    let blocks = vec![6, 11];
    assert_eq!(
        assemble_chunks(&tree, TRAIT, "shape.rs", "Rust", &vec![9], Some(&blocks), 4096, 10),
        vec![chunk("traitShape{fnarea();fnname();}", "file", 0, 4)]
    );
    assert_eq!(
        assemble_chunks(&tree, " \n ", "shape.rs", "Rust", &vec![], None, 4096, 10),
        vec![chunk("", "file", 0, 4)]
    );
}

#[test]
fn empty_source_has_no_chunks_whatever_was_captured() {
    let tree = trait_tree();
    let blocks = vec![1];
    for units in [vec![], vec![1, 6]] {
        assert_eq!(
            assemble_chunks(&tree, "", "shape.rs", "Rust", &units, Some(&blocks), 4096, 10),
            vec![]
        );
        assert_eq!(assemble_chunks(&tree, "", "shape.rs", "Rust", &units, None, 4096, 10), vec![]);
    }
}

#[test]
fn assembled_chunks_are_split() {
    let tree = trait_tree();
    assert_eq!(
        assemble_chunks(&tree, TRAIT, "shape.rs", "Rust", &vec![6, 1], None, 16, 25),
        vec![
            chunk("fnarea();", "function_signature_item:area", 1, 1),
            chunk("traitShape{fnare", "trait_item:Shape_part", 0, 0),
            chunk("narea();fnname()", "trait_item:Shape_part", 0, 0),
            chunk("me();}", "trait_item:Shape_part", 0, 0),
        ]
    );
}

#[test]
fn query_is_repeated_from_containers_below_the_node() {
    let mut tree = trait_tree();
    assert!(should_descend(&tree, 0, 1));
    assert!(!should_descend(&tree, 1, 1));
    assert!(!should_descend(&tree, 4, 1));
    assert!(!should_descend(&tree, 0, 4));
    assert!(!should_descend(&tree, 0, 6));
    assert!(!should_descend(&tree, 0, 18));
    tree.nodes[6].kind = "impl_item".to_string();
    assert!(should_descend(&tree, 0, 6));
    assert!(should_descend(&tree, 1, 6));
    assert!(should_descend(&tree, 4, 6));
    assert!(!should_descend(&tree, 6, 6));
    assert!(!should_descend(&tree, 11, 6));
    tree.nodes[6].descendants = 50;
    assert!(should_descend(&tree, 0, 6));
    assert!(!should_descend(&tree, 4, 6));
    tree.nodes[6].descendants = 5;
    tree.nodes[6].end_column = 6;
    assert!(!should_descend(&tree, 0, 6));
}

#[test]
fn missing_nodes_have_no_parent_and_no_children() {
    let tree = trait_tree();
    assert_eq!(tree.parent(18), None);
    assert_eq!(tree.parent(usize::MAX), None);
    assert!(!tree.has_named_child(18));
    assert!(!tree.has_named_child(usize::MAX));
    assert_eq!(tree.len(), 18);
    assert_eq!(tree.node(17).kind, "line_comment");
}

#[test]
fn chunk_is_stored_under_its_path_and_tag() {
    assert_eq!(chunk("x", "trait_item:Shape", 0, 3).storage_key(), "shape.rs:trait_item:Shape");
    assert_eq!(chunk("x", "", 0, 3).storage_key(), "shape.rs:");
    let copy = chunk("x", "file_part", 2, 3).duplicate();
    assert_eq!(copy, chunk("x", "file_part", 2, 3));
}

#[test]
fn captures_are_located_in_their_order() {
    let tree = trait_tree();
    let capture = |kind: &str, start_byte: usize, end_byte: usize| Capture {
        kind: kind.to_string(),
        start_byte,
        end_byte,
    };
    let found = vec![
        capture("identifier", 36, 40),
        capture("function_signature_item", 18, 28),
        capture("identifier", 36, 41),
        capture("trait_item", 0, 45),
        capture("identifier", 36, 40),
        capture("block", 0, 45),
    ];
    assert_eq!(locate_all(&tree, &found), vec![13, 6, 1, 13]);
    assert_eq!(locate_all(&tree, &vec![]), vec![]);
    assert_eq!(locate_all(&SyntaxTree { nodes: vec![] }, &found), vec![]);
}

#[test]
fn capture_of_two_nodes_is_located_at_the_first() {
    let mut tree = trait_tree();
    tree.nodes[11] = tree.nodes[6].clone();
    let capture = Capture {
        kind: "function_signature_item".to_string(),
        start_byte: 18,
        end_byte: 28,
    };
    assert_eq!(locate_all(&tree, &vec![capture.clone(), capture]), vec![6, 6]);
}
