use code_sherpa::chunking::splitter::{
    count_lines, find_semantic_boundary, overlap_size, split_large_chunk, split_points,
};
use code_sherpa::chunking::CodeChunk;

fn chunk_of(content: &str) -> CodeChunk {
    CodeChunk {
        content: content.to_string(),
        node_type: "function_item".to_string(),
        start_line: 7,
        end_line: 9,
        path: "src/lib.rs".to_string(),
        language: "Rust".to_string(),
    }
}

fn piece(content: &str, start_line: usize, end_line: usize) -> CodeChunk {
    CodeChunk {
        content: content.to_string(),
        node_type: "function_item_part".to_string(),
        start_line,
        end_line,
        path: "src/lib.rs".to_string(),
        language: "Rust".to_string(),
    }
}

#[test]
fn small_chunk_comes_back_unchanged() {
    let chunk = chunk_of("fn main() {}");
    assert_eq!(split_large_chunk(&chunk, 4096, 10), vec![chunk]);
}

#[test]
fn chunk_of_exactly_the_limit_is_not_split() {
    let chunk = chunk_of("abcdefgh");
    assert_eq!(split_large_chunk(&chunk, 8, 10), vec![chunk]);
}

#[test]
fn chunk_one_over_the_limit_is_split() {
    let chunk = chunk_of("abcdefghi");
    assert_eq!(
        split_large_chunk(&chunk, 8, 0),
        vec![piece("abcdefgh", 7, 7), piece("i", 7, 7)]
    );
}

#[test]
fn size_is_counted_in_bytes() {
    let chunk = chunk_of("ééééé");
    assert_eq!(split_large_chunk(&chunk, 10, 0), vec![chunk.clone()]);
    assert_eq!(
        split_large_chunk(&chunk, 9, 0),
        vec![piece("éééé", 7, 7), piece("é", 7, 7)]
    );
    assert_eq!(
        split_large_chunk(&chunk, 5, 0),
        vec![piece("éé", 7, 7), piece("éé", 7, 7), piece("é", 7, 7)]
    );
    assert_eq!(split_points("ééééé", 5, 0), vec![(0, 4), (4, 8), (8, 10)]);
}

#[test]
fn no_cut_falls_inside_a_character() {
    let content = "a€b€c€d€e€";
    for limit in 1..12 {
        for percentage in [0, 10, 50, 100] {
            let fragments = split_large_chunk(&chunk_of(content), limit, percentage);
            for fragment in &fragments {
                assert!(content.contains(&fragment.content));
                assert!(fragment.content.len() <= limit || fragment.content.chars().count() == 1);
            }
            if limit >= 4 {
                assert!(fragments.iter().all(|fragment| fragment.content.len() <= limit));
            }
        }
    }
}

#[test]
fn character_larger_than_the_limit_is_a_fragment_of_its_own() {
    let chunk = chunk_of("a€b");
    assert_eq!(
        split_large_chunk(&chunk, 2, 0),
        vec![piece("a", 7, 7), piece("€", 7, 7), piece("b", 7, 7)]
    );
    assert_eq!(
        split_large_chunk(&chunk, 3, 0),
        vec![piece("a", 7, 7), piece("€", 7, 7), piece("b", 7, 7)]
    );
    assert_eq!(split_large_chunk(&chunk, 4, 0), vec![piece("a€", 7, 7), piece("b", 7, 7)]);
}

#[test]
fn overlap_is_counted_in_bytes_and_starts_at_a_character() {
    let content = "€€€€€€€€€€";
    assert_eq!(
        split_points(content, 12, 50),
        vec![(0, 12), (6, 18), (12, 24), (18, 30)]
    );
    assert_eq!(
        split_points(content, 13, 40),
        vec![(0, 12), (9, 21), (18, 30)]
    );
}

#[test]
fn without_overlap_fragments_are_blocks_of_the_limit() {
    let chunk = chunk_of("a b c d e f");
    assert_eq!(
        split_large_chunk(&chunk, 4, 0),
        vec![piece("a b ", 7, 7), piece("c d ", 7, 7), piece("e f", 7, 7)]
    );
}

#[test]
fn without_overlap_fragments_rebuild_the_content() {
    let content = "fn main() {\n    let x = 1;\n\n    let y = 2;\n}\n// the end";
    let fragments = split_large_chunk(&chunk_of(content), 7, 0);
    let rebuilt: String = fragments.iter().map(|fragment| fragment.content.as_str()).collect();
    assert_eq!(rebuilt, content);
    let cuts = split_points(content, 7, 0);
    assert_eq!(cuts.first().unwrap().0, 0);
    assert_eq!(cuts.last().unwrap().1, content.len());
    for pair in cuts.windows(2) {
        assert_eq!(pair[0].1, pair[1].0);
    }
}

#[test]
fn fragments_overlap_by_a_tenth_of_the_limit() {
    let content = "x".repeat(10_000);
    assert_eq!(
        split_points(&content, 4096, 10),
        vec![(0, 4096), (3687, 7783), (7374, 10_000)]
    );
}

#[test]
fn fragments_of_lines_are_cut_after_line_feeds() {
    let mut content = "0123456789\n".repeat(909);
    content.push('x');
    assert_eq!(content.len(), 10_000);
    assert_eq!(
        split_points(&content, 4096, 10),
        vec![(0, 3696), (3287, 6985), (6576, 10_000)]
    );
    let fragments = split_large_chunk(&chunk_of(&content), 4096, 10);
    assert_eq!(fragments.len(), 3);
    assert_eq!((fragments[0].start_line, fragments[0].end_line), (7, 7 + 336));
    assert_eq!((fragments[1].start_line, fragments[1].end_line), (7 + 298, 7 + 298 + 337));
    assert_eq!((fragments[2].start_line, fragments[2].end_line), (7 + 597, 7 + 597 + 312));
    assert_eq!(fragments[1].content, &content[3287..6985]);
}

#[test]
fn each_fragment_begins_within_the_overlap_of_the_one_before() {
    let content = "let value = compute(a, b);\nif value > 3 { call(); }\n\n".repeat(300);
    let cuts = split_points(&content, 4096, 10);
    assert!(cuts.len() > 1);
    for pair in cuts.windows(2) {
        assert!(pair[1].0 > pair[0].0);
        assert!(pair[1].0 <= pair[0].1);
        assert!(pair[1].0 + 409 >= pair[0].1);
    }
}

#[test]
fn no_fragment_is_larger_than_the_limit() {
    let content = "alpha beta;\n{gamma}\n\ndelta epsilon zeta eta theta\n".repeat(40);
    for limit in [1, 2, 3, 10, 64, 333] {
        for percentage in [0, 10, 50, 99, 100, 250] {
            let fragments = split_large_chunk(&chunk_of(&content), limit, percentage);
            assert!(!fragments.is_empty());
            for fragment in &fragments {
                assert!(fragment.content.len() <= limit);
                assert!(!fragment.content.is_empty());
            }
        }
    }
}

#[test]
fn no_fragment_of_any_text_is_larger_than_a_limit_of_four_or_more() {
    let content = "søk etter «日本語» — naïve café;\n{𝄞}\n\nπ ≈ 3,14159 …\n".repeat(30);
    for limit in [4, 5, 7, 16, 100] {
        for percentage in [0, 10, 50, 100] {
            let fragments = split_large_chunk(&chunk_of(&content), limit, percentage);
            for fragment in &fragments {
                assert!(fragment.content.len() <= limit);
                assert!(!fragment.content.is_empty());
            }
            if percentage == 0 {
                let rebuilt: String =
                    fragments.iter().map(|fragment| fragment.content.as_str()).collect();
                assert_eq!(rebuilt, content);
            }
        }
    }
}

#[test]
fn start_lines_never_go_down() {
    let content = "one\ntwo\n\nthree four\nfive;\n".repeat(50);
    let fragments = split_large_chunk(&chunk_of(&content), 40, 30);
    for pair in fragments.windows(2) {
        assert!(pair[0].start_line <= pair[1].start_line);
    }
    for fragment in &fragments {
        assert!(fragment.start_line <= fragment.end_line);
    }
}

#[test]
fn lines_of_fragments_count_the_line_feeds() {
    let chunk = chunk_of("a\nb\nc\nd");
    assert_eq!(
        split_large_chunk(&chunk, 4, 0),
        vec![piece("a\nb\n", 7, 9), piece("c\nd", 9, 10)]
    );
}

#[test]
fn line_numbers_stop_at_the_largest() {
    let mut chunk = chunk_of("a\nb\nc\nd");
    chunk.start_line = usize::MAX - 1;
    let fragments = split_large_chunk(&chunk, 4, 0);
    assert_eq!((fragments[0].start_line, fragments[0].end_line), (usize::MAX - 1, usize::MAX));
    assert_eq!((fragments[1].start_line, fragments[1].end_line), (usize::MAX, usize::MAX));
}

#[test]
fn overlap_of_all_or_more_moves_one_character_at_a_time() {
    let content = "abcdefghijklmnopqrstuvwxy";
    let expected: Vec<(usize, usize)> = (0..16).map(|start| (start, start + 10)).collect();
    assert_eq!(split_points(content, 10, 100), expected);
    assert_eq!(split_points(content, 10, 150), expected);
}

#[test]
fn limit_of_zero_gives_single_characters() {
    let chunk = chunk_of("abc");
    assert_eq!(
        split_large_chunk(&chunk, 0, 10),
        vec![piece("a", 7, 7), piece("b", 7, 7), piece("c", 7, 7)]
    );
}

#[test]
fn overlap_is_a_share_of_the_limit_rounded_down() {
    assert_eq!(overlap_size(4096, 10), 409);
    assert_eq!(overlap_size(4096, 0), 0);
    assert_eq!(overlap_size(10, 99), 9);
    assert_eq!(overlap_size(10, 100), 10);
    assert_eq!(overlap_size(10, 1000), 10);
    assert_eq!(overlap_size(usize::MAX, 50), usize::MAX / 2);
    assert_eq!(overlap_size(usize::MAX, usize::MAX), usize::MAX);
}

#[test]
fn blank_line_is_the_first_choice() {
    assert_eq!(find_semantic_boundary("aaa\nbbb\n\nccc", 0, 100), 9);
}

#[test]
fn line_feed_is_the_second_choice() {
    assert_eq!(find_semantic_boundary("a;b\nc", 0, 100), 4);
}

#[test]
fn semicolon_comes_before_braces() {
    assert_eq!(find_semantic_boundary("a{b}c;d", 0, 100), 6);
}

#[test]
fn closing_brace_comes_before_opening_brace() {
    assert_eq!(find_semantic_boundary("a{b}c", 0, 100), 4);
}

#[test]
fn opening_brace_comes_before_space() {
    assert_eq!(find_semantic_boundary("a b{c", 0, 100), 4);
}

#[test]
fn space_is_the_last_choice() {
    assert_eq!(find_semantic_boundary("ab cd", 0, 100), 3);
}

#[test]
fn without_a_boundary_the_cut_is_at_the_limit() {
    assert_eq!(find_semantic_boundary("abcdef", 2, 4), 4);
    assert_eq!(find_semantic_boundary("abcdef", 2, 100), 6);
}

#[test]
fn boundaries_before_the_target_do_not_count() {
    assert_eq!(find_semantic_boundary("a\n\nbcdef;g", 3, 100), 9);
}

#[test]
fn blank_line_must_lie_within_the_limit() {
    assert_eq!(find_semantic_boundary("ab\n\ncd", 0, 3), 3);
    assert_eq!(find_semantic_boundary("ab\n\ncd", 0, 4), 4);
}

#[test]
fn target_and_limit_inside_a_character_move_to_its_ends() {
    assert_eq!(find_semantic_boundary("€€ €€", 1, 100), 7);
    assert_eq!(find_semantic_boundary("€€ €€", 4, 100), 7);
    assert_eq!(find_semantic_boundary("€€ €€", 7, 100), 13);
    assert_eq!(find_semantic_boundary("€€ €€", 0, 8), 7);
    assert_eq!(find_semantic_boundary("€€ €€", 0, 6), 6);
    assert_eq!(find_semantic_boundary("€€ €€", 0, 5), 3);
    assert_eq!(find_semantic_boundary("€€ €€", 0, 2), 0);
    assert_eq!(find_semantic_boundary("€€ €€", 8, 12), 10);
}

#[test]
fn target_and_limit_are_brought_within_the_text() {
    assert_eq!(find_semantic_boundary("abc", 10, 20), 3);
    assert_eq!(find_semantic_boundary("abcdef", 5, 2), 2);
    assert_eq!(find_semantic_boundary("", 0, 0), 0);
}

#[test]
fn count_lines_counts_line_feeds() {
    assert_eq!(count_lines(""), 0);
    assert_eq!(count_lines("abc"), 0);
    assert_eq!(count_lines("a\nb\n"), 2);
    assert_eq!(count_lines("\n\n\n"), 3);
    assert_eq!(count_lines("a\r\nb"), 1);
}
