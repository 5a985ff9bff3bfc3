use code_sherpa::chunking::sections::section_chunks;
use code_sherpa::chunking::splitter::{
    find_semantic_boundary, split_large_chunk, split_points,
};
use code_sherpa::chunking::CodeChunk;

struct Sequence(u64);

impl Sequence {
    fn next(&mut self) -> u64 {
        self.0 = self.0.wrapping_mul(6364136223846793005).wrapping_add(1442695040888963407);
        self.0 >> 33
    }

    fn below(&mut self, bound: usize) -> usize {
        (self.next() % bound as u64) as usize
    }

    fn text(&mut self, alphabet: &[char], length: usize) -> String {
        (0..length).map(|_| alphabet[self.below(alphabet.len())]).collect()
    }
}

fn sections_by_lines(source: &str) -> Vec<(String, usize, usize)> {
    let lines: Vec<&str> = source.lines().collect();
    let mut runs = Vec::new();
    let mut open = false;
    let mut run = 0;
    for line in &lines {
        let text = line.trim();
        let inside = open || text.starts_with("/*");
        open = inside && !text.ends_with("*/");
        run = if text.is_empty() && !inside { run + 1 } else { 0 };
        runs.push(run);
    }
    let mut ranges = Vec::new();
    let mut start = 0;
    for at in 0..lines.len() {
        if runs[at] >= 2 && at - start > 5 {
            ranges.push((start, at));
            start = at + 1;
        } else if at - start >= 100 {
            ranges.push((start, at));
            start = at;
        }
    }
    if start < lines.len() {
        ranges.push((start, lines.len()));
    }
    ranges
        .into_iter()
        .map(|(start, end)| (lines[start..end].join("\n"), start, end))
        .filter(|section| !section.0.trim().is_empty())
        .collect()
}

fn at_or_after(content: &str, position: usize) -> usize {
    let mut position = position.min(content.len());
    while !content.is_char_boundary(position) {
        position += 1;
    }
    position
}

fn at_or_before(content: &str, position: usize) -> usize {
    let mut position = position.min(content.len());
    while !content.is_char_boundary(position) {
        position -= 1;
    }
    position
}

fn boundary_by_search(content: &str, target_pos: usize, max_pos: usize) -> usize {
    let max_pos = at_or_before(content, max_pos);
    let end_pos = at_or_after(content, target_pos).min(max_pos);
    let search_range = &content[end_pos..max_pos];
    if let Some(pos) = search_range.find("\n\n") {
        return end_pos + pos + 2;
    }
    if let Some(pos) = search_range.find('\n') {
        return end_pos + pos + 1;
    }
    for boundary in [";", "}", "{"] {
        if let Some(pos) = search_range.find(boundary) {
            return end_pos + pos + boundary.len();
        }
    }
    if let Some(pos) = search_range.find(' ') {
        return end_pos + pos + 1;
    }
    max_pos
}

fn fragments_by_search(content: &str, max_size: usize, percentage: usize) -> Vec<(usize, usize)> {
    let overlap = max_size * percentage.min(100) / 100;
    let step = (max_size - overlap).max(1);
    let mut cuts = Vec::new();
    let mut pos = 0;
    while pos < content.len() {
        let mut limit = at_or_before(content, pos + max_size.max(1));
        if limit <= pos {
            limit = at_or_after(content, pos + 1);
        }
        let cut = boundary_by_search(content, pos + step, limit);
        cuts.push((pos, cut));
        if cut >= content.len() {
            break;
        }
        pos = at_or_after(content, cut.saturating_sub(overlap).max(pos + 1));
    }
    cuts
}

#[test]
fn sections_are_those_of_a_pass_over_the_lines() {
    let mut sequence = Sequence(7);
    let alphabets: [&[char]; 3] = [
        &['a', ' ', '\n', '\n', '\n', '\r', '\t', '/', '*'],
        &['x', '\n', '\n', ' '],
        &['/', '*', '\n', ' ', 'b', '\n'],
    ];
    for round in 0..600 {
        let alphabet = alphabets[round % alphabets.len()];
        let length = sequence.below(700);
        let source = sequence.text(alphabet, length);
        let expected: Vec<CodeChunk> = sections_by_lines(&source)
            .into_iter()
            .map(|(content, start_line, end_line)| CodeChunk {
                content,
                node_type: "section".to_string(),
                start_line,
                end_line,
                path: "p".to_string(),
                language: "Go".to_string(),
            })
            .collect();
        assert_eq!(section_chunks(&source, "p", "Go"), expected);
    }
}

#[test]
fn long_sections_are_those_of_a_pass_over_the_lines() {
    let mut sequence = Sequence(11);
    for _ in 0..40 {
        let count = 90 + sequence.below(250);
        let lines: Vec<String> = (0..count)
            .map(|_| match sequence.below(12) {
                0 | 1 | 2 => String::new(),
                3 => "  ".to_string(),
                4 => "/* open".to_string(),
                5 => "close */".to_string(),
                _ => "code here".to_string(),
            })
            .collect();
        let source = lines.join("\n");
        let expected: Vec<(String, usize, usize)> = sections_by_lines(&source);
        let found: Vec<(String, usize, usize)> = section_chunks(&source, "p", "Go")
            .into_iter()
            .map(|chunk| (chunk.content, chunk.start_line, chunk.end_line))
            .collect();
        assert_eq!(found, expected);
    }
}

#[test]
fn boundaries_are_those_of_a_search_in_the_window() {
    let mut sequence = Sequence(3);
    let alphabet = ['a', 'b', ' ', '\n', ';', '{', '}', 'c', 'é', '€', '𝄞'];
    for _ in 0..3000 {
        let length = sequence.below(40);
        let content = sequence.text(&alphabet, length);
        let target = sequence.below(50);
        let limit = sequence.below(50);
        assert_eq!(
            find_semantic_boundary(&content, target, limit),
            boundary_by_search(&content, target, limit)
        );
    }
}

#[test]
fn fragments_are_those_of_repeated_searches() {
    let mut sequence = Sequence(5);
    let alphabet = ['a', 'b', ' ', '\n', ';', '{', '}', 'c', 'd', 'é', '€', '𝄞'];
    for _ in 0..1500 {
        let length = sequence.below(300);
        let content = sequence.text(&alphabet, length);
        let max_size = sequence.below(60);
        let percentage = sequence.below(130);
        let chunk = CodeChunk {
            content: content.clone(),
            node_type: "unit".to_string(),
            start_line: 3,
            end_line: 3,
            path: "p".to_string(),
            language: "Go".to_string(),
        };
        let expected: Vec<CodeChunk> = if content.len() <= max_size {
            vec![chunk.clone()]
        } else {
            fragments_by_search(&content, max_size, percentage)
                .into_iter()
                .map(|(from, to)| {
                    let start_line = 3 + content[..from].matches('\n').count();
                    CodeChunk {
                        content: content[from..to].to_string(),
                        node_type: "unit_part".to_string(),
                        start_line,
                        end_line: start_line + content[from..to].matches('\n').count(),
                        path: "p".to_string(),
                        language: "Go".to_string(),
                    }
                })
                .collect()
        };
        assert_eq!(split_large_chunk(&chunk, max_size, percentage), expected);
        let ranges = if content.len() <= max_size {
            vec![]
        } else {
            fragments_by_search(&content, max_size, percentage)
        };
        if !ranges.is_empty() {
            assert_eq!(split_points(&content, max_size, percentage), ranges);
        }
    }
}
