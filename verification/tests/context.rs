use code_sherpa::chunking::context::{add_chunk_context, find_node_name, names_its_parent};
use code_sherpa::chunking::syntax::{SyntaxNode, SyntaxTree};
use code_sherpa::chunking::CodeChunk;

fn node(kind: &str, named: bool, bytes: (usize, usize), descendants: usize) -> SyntaxNode {
    SyntaxNode {
        kind: kind.to_string(),
        named,
        start_byte: bytes.0,
        end_byte: bytes.1,
        start_row: 0,
        start_column: bytes.0,
        end_row: 0,
        end_column: bytes.1,
        descendants,
    }
}

fn chunk(content: &str, node_type: &str) -> CodeChunk {
    CodeChunk {
        content: content.to_string(),
        node_type: node_type.to_string(),
        start_line: 0,
        end_line: 0,
        path: "a.rs".to_string(),
        language: "Rust".to_string(),
    }
}

const SOURCE: &str = "impl Shape { fn area() {} }";

fn impl_tree() -> SyntaxTree {
    SyntaxTree {
        nodes: vec![
            node("source_file", true, (0, 27), 14),
            node("impl_item", true, (0, 27), 13),
            node("impl", false, (0, 4), 1),
            node("type_identifier", true, (5, 10), 1),
            node("declaration_list", true, (11, 27), 10),
            node("{", false, (11, 12), 1),
            node("function_item", true, (13, 25), 7),
            node("fn", false, (13, 15), 1),
            node("identifier", true, (16, 20), 1),
            node("parameters", true, (20, 22), 1),
            node("block", true, (23, 25), 3),
            node("{", false, (23, 24), 1),
            node("}", false, (24, 25), 1),
            node("}", false, (26, 27), 1),
        ],
    }
}

#[test]
fn name_kinds_are_recognized() {
    assert!(names_its_parent("identifier"));
    assert!(names_its_parent("name"));
    assert!(names_its_parent("field_name"));
    assert!(names_its_parent("type_identifier"));
    assert!(names_its_parent("_name"));
    assert!(!names_its_parent("identifiers"));
    assert!(!names_its_parent("names"));
    assert!(!names_its_parent("name_of"));
    assert!(!names_its_parent("Identifier"));
    assert!(!names_its_parent(""));
}

#[test]
fn name_is_the_first_named_child_of_a_name_kind() {
    let tree = impl_tree();
    assert_eq!(find_node_name(&tree, 1), Some(3));
    assert_eq!(find_node_name(&tree, 6), Some(8));
    assert_eq!(find_node_name(&tree, 0), None);
    assert_eq!(find_node_name(&tree, 4), None);
    assert_eq!(find_node_name(&tree, 8), None);
    assert_eq!(find_node_name(&tree, 14), None);
}

#[test]
fn name_is_sought_among_the_children_only() {
    let tree = SyntaxTree {
        nodes: vec![
            node("call", true, (0, 6), 4),
            node("arguments", true, (0, 3), 2),
            node("identifier", true, (0, 3), 1),
            node("identifier", true, (4, 6), 1),
        ],
    };
    assert_eq!(find_node_name(&tree, 0), Some(3));
}

#[test]
fn child_that_is_not_named_gives_no_name() {
    let tree = SyntaxTree {
        nodes: vec![
            node("pair", true, (0, 3), 3),
            node("identifier", false, (0, 1), 1),
            node("name", true, (2, 3), 1),
        ],
    };
    assert_eq!(find_node_name(&tree, 0), Some(2));
}

#[test]
fn tag_gets_the_name_and_content_gets_the_banner() {
    let tree = impl_tree();
    let mut unit = chunk("fnarea(){}", "function_item");
    add_chunk_context(&mut unit, &tree, 6, SOURCE, Some(1));
    assert_eq!(unit, chunk("// In impl_item: Shape\nfnarea(){}", "function_item:area"));
}

#[test]
fn parent_without_a_name_gives_no_banner() {
    let tree = impl_tree();
    let mut unit = chunk("fnarea(){}", "function_item");
    add_chunk_context(&mut unit, &tree, 6, SOURCE, Some(4));
    assert_eq!(unit, chunk("fnarea(){}", "function_item:area"));
}

#[test]
fn node_without_a_name_keeps_its_tag() {
    let tree = impl_tree();
    let mut unit = chunk("{fnarea(){}}", "declaration_list");
    add_chunk_context(&mut unit, &tree, 4, SOURCE, Some(1));
    assert_eq!(unit, chunk("// In impl_item: Shape\n{fnarea(){}}", "declaration_list"));
}

#[test]
fn no_parent_gives_no_banner() {
    let tree = impl_tree();
    let mut unit = chunk("implShape{fnarea(){}}", "impl_item");
    add_chunk_context(&mut unit, &tree, 1, SOURCE, None);
    assert_eq!(unit, chunk("implShape{fnarea(){}}", "impl_item:Shape"));
}

#[test]
fn name_outside_the_source_is_left_out() {
    let tree = impl_tree();
    let mut unit = chunk("fnarea(){}", "function_item");
    add_chunk_context(&mut unit, &tree, 6, "impl Shape { fn ar", Some(1));
    assert_eq!(unit, chunk("// In impl_item: Shape\nfnarea(){}", "function_item"));
}

#[test]
fn parent_that_the_tree_does_not_have_is_left_out() {
    let tree = impl_tree();
    let mut unit = chunk("fnarea(){}", "function_item");
    add_chunk_context(&mut unit, &tree, 6, SOURCE, Some(99));
    assert_eq!(unit, chunk("fnarea(){}", "function_item:area"));
}

#[test]
fn tree_knows_its_parents() {
    let tree = impl_tree();
    assert_eq!(tree.parent(0), None);
    assert_eq!(tree.parent(1), Some(0));
    assert_eq!(tree.parent(3), Some(1));
    assert_eq!(tree.parent(6), Some(4));
    assert_eq!(tree.parent(8), Some(6));
    assert_eq!(tree.parent(12), Some(10));
    assert_eq!(tree.parent(13), Some(4));
    assert!(tree.has_named_child(1));
    assert!(!tree.has_named_child(9));
    assert!(!tree.has_named_child(10));
    assert_eq!(tree.subtree_end(4), 14);
    assert_eq!(tree.subtree_end(6), 13);
}
