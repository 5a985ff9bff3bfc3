//! Cutting a source text into sections by its blank lines alone, for when no
//! syntax query can be run on it.

use vstd::prelude::*;
use super::text::{
    all_blank, chars_of, ends_with, is_all_blank, join_lines, join_spans,
    lemma_blank_text_trims_to_nothing, lemma_join_keeps_lines, lines_of, span_views,
    split_lines, starts_with, text_of, trim_span, trimmed,
};
use super::types::{chunk_views, ChunkView, CodeChunk};

verus! {

/// Consecutive blank lines that end a section.
pub const SECTION_BREAK_BLANKS: usize = 2;

/// A section is not ended by blank lines before it has more lines than this.
pub const SECTION_MIN_LINES: usize = 5;

/// A section is ended when it has this many lines.
pub const SECTION_MAX_LINES: usize = 100;

/// The line, trimmed, begins a block comment.
pub open spec fn opens_comment(line: Seq<char>) -> bool {
    starts_with(trimmed(line), seq!['/', '*'])
}

/// The line, trimmed, ends a block comment.
pub open spec fn closes_comment(line: Seq<char>) -> bool {
    ends_with(trimmed(line), seq!['*', '/'])
}

/// The line holds white space only.
pub open spec fn is_blank_line(line: Seq<char>) -> bool {
    trimmed(line).len() == 0
}

/// The sections of `lines` that the scan still emits when it stands before
/// line `at`, the current section having begun at line `start`, after `blanks`
/// consecutive blank lines, inside a block comment or not.
///
/// A blank line outside a block comment adds to the count of blank lines;
/// any other line resets it. A line that is at least the second blank line in
/// a row ends the section before it, where that section has more than
/// `SECTION_MIN_LINES` lines, and belongs to no section. Any line before
/// which the section has `SECTION_MAX_LINES` lines ends that section too, and
/// begins the next. What is left after the last line is a section.
pub open spec fn sections_from(
    lines: Seq<Seq<char>>,
    at: int,
    start: int,
    blanks: int,
    in_comment: bool,
) -> Seq<(int, int)>
    decreases lines.len() - at,
{
    if at < 0 || at >= lines.len() {
        if start < lines.len() {
            seq![(start, lines.len() as int)]
        } else {
            Seq::empty()
        }
    } else {
        let inside = in_comment || opens_comment(lines[at]);
        let after = inside && !closes_comment(lines[at]);
        let count = if is_blank_line(lines[at]) && !inside {
            blanks + 1
        } else {
            0
        };
        if count >= SECTION_BREAK_BLANKS && at - start > SECTION_MIN_LINES {
            seq![(start, at)] + sections_from(lines, at + 1, at + 1, 0, after)
        } else if at - start >= SECTION_MAX_LINES {
            seq![(start, at)] + sections_from(lines, at + 1, at, count, after)
        } else {
            sections_from(lines, at + 1, start, count, after)
        }
    }
}

/// What the scan gives from line `at` on, when the section that began at
/// line `start` has no more than `SECTION_MAX_LINES` lines so far: no section
/// has more than `SECTION_MAX_LINES` lines; the first begins at `start`; each
/// next one begins where the one before ends, or one line later where that
/// line is blank; and the last ends with the last line, or just before it
/// where that line is blank.
pub proof fn lemma_sections_shape(
    lines: Seq<Seq<char>>,
    at: int,
    start: int,
    blanks: int,
    in_comment: bool,
)
    requires
        0 <= start <= at <= lines.len(),
        at - start <= SECTION_MAX_LINES,
    ensures
        forall|i: int|
            0 <= i < sections_from(lines, at, start, blanks, in_comment).len() ==> {
                let range = #[trigger] sections_from(lines, at, start, blanks, in_comment)[i];
                &&& start <= range.0 <= range.1 <= lines.len()
                &&& range.1 - range.0 <= SECTION_MAX_LINES
            },
        forall|i: int|
            0 <= i < sections_from(lines, at, start, blanks, in_comment).len() - 1 ==> {
                let range = #[trigger] sections_from(lines, at, start, blanks, in_comment)[i];
                let next = sections_from(lines, at, start, blanks, in_comment)[i + 1];
                ||| next.0 == range.1
                ||| next.0 == range.1 + 1 && is_blank_line(lines[range.1])
            },
        start < lines.len() ==> sections_from(lines, at, start, blanks, in_comment).len() > 0,
        sections_from(lines, at, start, blanks, in_comment).len() > 0 ==> {
            let first = sections_from(lines, at, start, blanks, in_comment)[0];
            let last = sections_from(lines, at, start, blanks, in_comment).last();
            &&& first.0 == start
            &&& (last.1 == lines.len() || last.1 == lines.len() - 1 && is_blank_line(
                lines[last.1],
            ))
        },
    decreases lines.len() - at,
{
    let all = sections_from(lines, at, start, blanks, in_comment);
    if at < lines.len() {
        let inside = in_comment || opens_comment(lines[at]);
        let after = inside && !closes_comment(lines[at]);
        let count: int = if is_blank_line(lines[at]) && !inside {
            blanks + 1
        } else {
            0
        };
        if count >= SECTION_BREAK_BLANKS && at - start > SECTION_MIN_LINES {
            let rest = sections_from(lines, at + 1, at + 1, 0, after);
            lemma_sections_shape(lines, at + 1, at + 1, 0, after);
            assert(all =~= seq![(start, at)] + rest);
            assert forall|i: int| 0 <= i < all.len() implies {
                let range = #[trigger] all[i];
                &&& start <= range.0 <= range.1 <= lines.len()
                &&& range.1 - range.0 <= SECTION_MAX_LINES
            } by {
                if i > 0 {
                    assert(all[i] == rest[i - 1]);
                }
            }
            assert forall|i: int| 0 <= i < all.len() - 1 implies {
                let range = #[trigger] all[i];
                let next = all[i + 1];
                ||| next.0 == range.1
                ||| next.0 == range.1 + 1 && is_blank_line(lines[range.1])
            } by {
                assert(all[i + 1] == rest[i]);
                if i > 0 {
                    assert(all[i] == rest[i - 1]);
                }
            }
            if rest.len() > 0 {
                assert(all.last() == rest.last());
            }
        } else if at - start >= SECTION_MAX_LINES {
            let rest = sections_from(lines, at + 1, at, count, after);
            lemma_sections_shape(lines, at + 1, at, count, after);
            assert(all =~= seq![(start, at)] + rest);
            assert forall|i: int| 0 <= i < all.len() implies {
                let range = #[trigger] all[i];
                &&& start <= range.0 <= range.1 <= lines.len()
                &&& range.1 - range.0 <= SECTION_MAX_LINES
            } by {
                if i > 0 {
                    assert(all[i] == rest[i - 1]);
                }
            }
            assert forall|i: int| 0 <= i < all.len() - 1 implies {
                let range = #[trigger] all[i];
                let next = all[i + 1];
                ||| next.0 == range.1
                ||| next.0 == range.1 + 1 && is_blank_line(lines[range.1])
            } by {
                assert(all[i + 1] == rest[i]);
                if i > 0 {
                    assert(all[i] == rest[i - 1]);
                }
            }
            assert(all.last() == rest.last());
        } else {
            lemma_sections_shape(lines, at + 1, start, count, after);
        }
    }
}

/// The section holds the line: it begins at or before it and ends after it.
pub open spec fn holds_line(range: (int, int), line: int) -> bool {
    range.0 <= line < range.1
}

/// A line that is not blank lies in exactly one of the sections that the
/// scan gives from line `at` on, when it is a line of the section that began
/// at `start` or a later one: the section whose number is returned holds it,
/// and no other does.
pub proof fn lemma_line_is_in_one_section(
    lines: Seq<Seq<char>>,
    at: int,
    start: int,
    blanks: int,
    in_comment: bool,
    line: int,
) -> (section: int)
    requires
        0 <= start <= at <= lines.len(),
        at - start <= SECTION_MAX_LINES,
        start <= line < lines.len(),
        !is_blank_line(lines[line]),
    ensures
        0 <= section < sections_from(lines, at, start, blanks, in_comment).len(),
        holds_line(sections_from(lines, at, start, blanks, in_comment)[section], line),
        forall|i: int|
            0 <= i < sections_from(lines, at, start, blanks, in_comment).len() && holds_line(
                #[trigger] sections_from(lines, at, start, blanks, in_comment)[i],
                line,
            ) ==> i == section,
    decreases lines.len() - at,
{
    let all = sections_from(lines, at, start, blanks, in_comment);
    if at < lines.len() {
        let inside = in_comment || opens_comment(lines[at]);
        let after = inside && !closes_comment(lines[at]);
        let count: int = if is_blank_line(lines[at]) && !inside {
            blanks + 1
        } else {
            0
        };
        if count >= SECTION_BREAK_BLANKS && at - start > SECTION_MIN_LINES {
            let rest = sections_from(lines, at + 1, at + 1, 0, after);
            lemma_sections_shape(lines, at + 1, at + 1, 0, after);
            assert(all =~= seq![(start, at)] + rest);
            assert forall|i: int| 0 < i < all.len() implies all[i] == rest[i - 1] by {}
            if line < at {
                0
            } else {
                lemma_line_is_in_one_section(lines, at + 1, at + 1, 0, after, line) + 1
            }
        } else if at - start >= SECTION_MAX_LINES {
            let rest = sections_from(lines, at + 1, at, count, after);
            lemma_sections_shape(lines, at + 1, at, count, after);
            assert(all =~= seq![(start, at)] + rest);
            assert forall|i: int| 0 < i < all.len() implies all[i] == rest[i - 1] by {}
            if line < at {
                0
            } else {
                lemma_line_is_in_one_section(lines, at + 1, at, count, after, line) + 1
            }
        } else {
            lemma_line_is_in_one_section(lines, at + 1, start, count, after, line)
        }
    } else {
        0
    }
}

/// The sections of `lines`, as ranges of lines.
pub open spec fn sections_of(lines: Seq<Seq<char>>) -> Seq<(int, int)> {
    sections_from(lines, 0, 0, 0, false)
}

/// The chunk of the section `lines[range.0..range.1]`.
pub open spec fn section_chunk(
    lines: Seq<Seq<char>>,
    range: (int, int),
    path: Seq<char>,
    language: Seq<char>,
) -> ChunkView {
    ChunkView {
        content: join_lines(lines.subrange(range.0, range.1)),
        node_type: "section"@,
        start_line: range.0 as usize,
        end_line: range.1 as usize,
        path,
        language,
    }
}

/// The chunks of the sections `ranges`, in order; a section of white space
/// alone gives none.
pub open spec fn chunks_of_sections(
    lines: Seq<Seq<char>>,
    ranges: Seq<(int, int)>,
    path: Seq<char>,
    language: Seq<char>,
) -> Seq<ChunkView>
    decreases ranges.len(),
{
    if ranges.len() == 0 {
        Seq::empty()
    } else {
        let before = chunks_of_sections(lines, ranges.drop_last(), path, language);
        let chunk = section_chunk(lines, ranges.last(), path, language);
        if all_blank(chunk.content) {
            before
        } else {
            before.push(chunk)
        }
    }
}

/// The section chunks of a source text.
pub open spec fn section_chunks_of(source: Seq<char>, path: Seq<char>, language: Seq<char>) -> Seq<
    ChunkView,
> {
    chunks_of_sections(lines_of(source), sections_of(lines_of(source)), path, language)
}

/// A section that holds more than white space has its chunk among the
/// chunks of the sections: the chunk whose number is returned.
pub proof fn lemma_section_gives_chunk(
    lines: Seq<Seq<char>>,
    ranges: Seq<(int, int)>,
    path: Seq<char>,
    language: Seq<char>,
    section: int,
) -> (chunk: int)
    requires
        0 <= section < ranges.len(),
        !all_blank(section_chunk(lines, ranges[section], path, language).content),
    ensures
        0 <= chunk < chunks_of_sections(lines, ranges, path, language).len(),
        chunks_of_sections(lines, ranges, path, language)[chunk] == section_chunk(
            lines,
            ranges[section],
            path,
            language,
        ),
    decreases ranges.len(),
{
    let before = chunks_of_sections(lines, ranges.drop_last(), path, language);
    if section == ranges.len() - 1 {
        before.len() as int
    } else {
        assert(ranges.drop_last()[section] == ranges[section]);
        let chunk = lemma_section_gives_chunk(lines, ranges.drop_last(), path, language, section);
        assert(chunks_of_sections(lines, ranges, path, language)[chunk] == before[chunk]);
        chunk
    }
}

/// Every chunk of the sections is the chunk of one of them, the section
/// whose number is returned, and stands after the chunks of the sections
/// before that one.
pub proof fn lemma_chunk_is_of_section(
    lines: Seq<Seq<char>>,
    ranges: Seq<(int, int)>,
    path: Seq<char>,
    language: Seq<char>,
    chunk: int,
) -> (section: int)
    requires
        0 <= chunk < chunks_of_sections(lines, ranges, path, language).len(),
    ensures
        0 <= section < ranges.len(),
        chunks_of_sections(lines, ranges, path, language)[chunk] == section_chunk(
            lines,
            ranges[section],
            path,
            language,
        ),
        chunks_of_sections(lines, ranges.take(section), path, language).len() == chunk,
    decreases ranges.len(),
{
    let before = chunks_of_sections(lines, ranges.drop_last(), path, language);
    if chunk == before.len() {
        assert(ranges.take(ranges.len() - 1) =~= ranges.drop_last());
        ranges.len() - 1
    } else {
        let section = lemma_chunk_is_of_section(lines, ranges.drop_last(), path, language, chunk);
        assert(ranges.drop_last()[section] == ranges[section]);
        assert(ranges.drop_last().take(section) =~= ranges.take(section));
        assert(chunks_of_sections(lines, ranges, path, language)[chunk] == before[chunk]);
        section
    }
}

/// The sections lie within the lines, whose number a machine can hold.
pub open spec fn are_sections(lines: Seq<Seq<char>>, ranges: Seq<(int, int)>) -> bool {
    &&& lines.len() <= usize::MAX
    &&& forall|i: int|
        0 <= i < ranges.len() ==> 0 <= (#[trigger] ranges[i]).0 <= ranges[i].1 <= lines.len()
}

/// Where exactly one section holds a line that is more than white space,
/// exactly one of the chunks of the sections lies on that line: the chunk of
/// that section, whose number is returned.
pub proof fn lemma_chunk_holds_line(
    lines: Seq<Seq<char>>,
    ranges: Seq<(int, int)>,
    path: Seq<char>,
    language: Seq<char>,
    line: int,
    section: int,
) -> (chunk: int)
    requires
        are_sections(lines, ranges),
        0 <= section < ranges.len(),
        holds_line(ranges[section], line),
        forall|i: int|
            0 <= i < ranges.len() && holds_line(#[trigger] ranges[i], line) ==> i == section,
        !all_blank(lines[line]),
    ensures
        0 <= chunk < chunks_of_sections(lines, ranges, path, language).len(),
        chunks_of_sections(lines, ranges, path, language)[chunk] == section_chunk(
            lines,
            ranges[section],
            path,
            language,
        ),
        forall|i: int|
            0 <= i < chunks_of_sections(lines, ranges, path, language).len() && (
            #[trigger] chunks_of_sections(lines, ranges, path, language)[i]).start_line <= line
                < chunks_of_sections(lines, ranges, path, language)[i].end_line ==> i == chunk,
{
    let all = chunks_of_sections(lines, ranges, path, language);
    let range = ranges[section];
    let held = lines.subrange(range.0, range.1);
    assert(held[line - range.0] == lines[line]);
    lemma_join_keeps_lines(held, line - range.0);
    let chunk = lemma_section_gives_chunk(lines, ranges, path, language, section);
    let same = lemma_chunk_is_of_section(lines, ranges, path, language, chunk);
    assert(ranges[same].0 as usize == ranges[section].0 as usize);
    assert(ranges[same].1 as usize == ranges[section].1 as usize);
    assert(holds_line(ranges[same], line));
    assert forall|i: int|
        0 <= i < all.len() && (#[trigger] all[i]).start_line <= line
            < all[i].end_line implies i == chunk by {
        let other = lemma_chunk_is_of_section(lines, ranges, path, language, i);
        assert(all[i].start_line == ranges[other].0 as usize);
        assert(all[i].end_line == ranges[other].1 as usize);
        assert(holds_line(ranges[other], line));
        assert(other == same);
    }
    chunk
}

/// Nothing is lost to the sections: a line of the source that is not blank
/// lies on the lines of exactly one section chunk, the chunk whose number is
/// returned, and the content of that chunk is its lines.
pub proof fn lemma_line_is_in_one_chunk(
    source: Seq<char>,
    path: Seq<char>,
    language: Seq<char>,
    line: int,
) -> (chunk: int)
    requires
        lines_of(source).len() <= usize::MAX,
        0 <= line < lines_of(source).len(),
        !is_blank_line(lines_of(source)[line]),
    ensures
        0 <= chunk < section_chunks_of(source, path, language).len(),
        ({
            let found = section_chunks_of(source, path, language)[chunk];
            &&& found.start_line <= line < found.end_line
            &&& found.content == join_lines(
                lines_of(source).subrange(found.start_line as int, found.end_line as int),
            )
        }),
        forall|i: int|
            0 <= i < section_chunks_of(source, path, language).len() && (
            #[trigger] section_chunks_of(source, path, language)[i]).start_line <= line
                < section_chunks_of(source, path, language)[i].end_line ==> i == chunk,
{
    let lines = lines_of(source);
    let ranges = sections_of(lines);
    lemma_sections_shape(lines, 0, 0, 0, false);
    let section = lemma_line_is_in_one_section(lines, 0, 0, 0, false, line);
    if all_blank(lines[line]) {
        lemma_blank_text_trims_to_nothing(lines[line], 0);
    }
    assert(are_sections(lines, ranges));
    lemma_chunk_holds_line(lines, ranges, path, language, line, section)
}

/// The sections of the lines `spans` of `chars`.
pub(crate) fn section_ranges(chars: &Vec<char>, spans: &Vec<(usize, usize)>) -> (ranges: Vec<
    (usize, usize),
>)
    requires
        forall|i: int|
            0 <= i < spans@.len() ==> (#[trigger] spans@[i]).0 <= spans@[i].1 <= chars@.len(),
    ensures
        span_views(ranges@) == sections_of(
            span_views(spans@).map_values(|span: (int, int)| chars@.subrange(span.0, span.1)),
        ),
        forall|i: int|
            0 <= i < ranges@.len() ==> (#[trigger] ranges@[i]).0 <= ranges@[i].1 <= spans@.len()
                && ranges@[i].1 - ranges@[i].0 <= SECTION_MAX_LINES,
{
    let ghost lines = span_views(spans@).map_values(
        |span: (int, int)| chars@.subrange(span.0, span.1),
    );
    let count = spans.len();
    let mut ranges: Vec<(usize, usize)> = Vec::new();
    let mut start: usize = 0;
    let mut blanks: usize = 0;
    let mut in_comment = false;
    let mut at: usize = 0;
    while at < count
        invariant
            at <= count,
            count == spans@.len(),
            lines == span_views(spans@).map_values(
                |span: (int, int)| chars@.subrange(span.0, span.1),
            ),
            forall|i: int|
                0 <= i < spans@.len() ==> (#[trigger] spans@[i]).0 <= spans@[i].1 <= chars@.len(),
            start <= at,
            blanks <= at,
            at - start <= SECTION_MAX_LINES,
            sections_of(lines) == span_views(ranges@) + sections_from(
                lines,
                at as int,
                start as int,
                blanks as int,
                in_comment,
            ),
            forall|i: int|
                0 <= i < ranges@.len() ==> (#[trigger] ranges@[i]).0 <= ranges@[i].1
                    <= spans@.len() && ranges@[i].1 - ranges@[i].0 <= SECTION_MAX_LINES,
        decreases count - at,
    {
        let span = spans[at];
        let (from, to) = trim_span(chars, span.0, span.1);
        let ghost line = trimmed(lines[at as int]);
        let opens = to - from >= 2 && chars[from] == '/' && chars[from + 1] == '*';
        let closes = to - from >= 2 && chars[to - 2] == '*' && chars[to - 1] == '/';
        proof {
            if to - from >= 2 {
                assert(line.subrange(0, 2) =~= seq![line[0], line[1]]);
                assert(line.subrange(line.len() - 2, line.len() as int) =~= seq![
                    line[line.len() - 2],
                    line[line.len() - 1],
                ]);
            }
        }
        let inside = in_comment || opens;
        in_comment = inside && !closes;
        if to == from && !inside {
            blanks += 1;
        } else {
            blanks = 0;
        }
        if blanks >= SECTION_BREAK_BLANKS && at - start > SECTION_MIN_LINES {
            ranges.push((start, at));
            start = at + 1;
            blanks = 0;
        } else if at - start >= SECTION_MAX_LINES {
            ranges.push((start, at));
            start = at;
        }
        at += 1;
    }
    if start < count {
        ranges.push((start, count));
    }
    ranges
}

/// Cuts `source` into sections along its blank lines and gives one chunk
/// for each section that holds more than white space. No chunk holds more
/// than `SECTION_MAX_LINES` lines.
pub fn section_chunks(source: &str, path: &str, language: &str) -> (chunks: Vec<CodeChunk>)
    ensures
        chunk_views(chunks@) == section_chunks_of(source@, path@, language@),
        forall|i: int| 0 <= i < chunks@.len() ==> (#[trigger] chunk_views(chunks@)[i]).well_formed(),
        forall|i: int|
            0 <= i < chunks@.len() ==> (#[trigger] chunks@[i]).end_line - chunks@[i].start_line
                <= SECTION_MAX_LINES,
{
    let chars = chars_of(source);
    let spans = split_lines(&chars);
    let ranges = section_ranges(&chars, &spans);
    let ghost lines = lines_of(source@);
    let mut chunks: Vec<CodeChunk> = Vec::new();
    let mut at: usize = 0;
    while at < ranges.len()
        invariant
            at <= ranges@.len(),
            chars@ == source@,
            lines == span_views(spans@).map_values(
                |span: (int, int)| chars@.subrange(span.0, span.1),
            ),
            forall|i: int|
                0 <= i < spans@.len() ==> (#[trigger] spans@[i]).0 <= spans@[i].1 <= chars@.len(),
            forall|i: int|
                0 <= i < ranges@.len() ==> (#[trigger] ranges@[i]).0 <= ranges@[i].1
                    <= spans@.len() && ranges@[i].1 - ranges@[i].0 <= SECTION_MAX_LINES,
            chunk_views(chunks@) == chunks_of_sections(
                lines,
                span_views(ranges@).take(at as int),
                path@,
                language@,
            ),
            forall|i: int| 0 <= i < chunks@.len() ==> (#[trigger] chunks@[i])@.well_formed(),
            forall|i: int|
                0 <= i < chunks@.len() ==> (#[trigger] chunks@[i]).end_line
                    - chunks@[i].start_line <= SECTION_MAX_LINES,
        decreases ranges@.len() - at,
    {
        let range = ranges[at];
        let joined = join_spans(&chars, &spans, range.0, range.1);
        proof {
            let upto = span_views(ranges@).take(at + 1);
            assert(upto.drop_last() =~= span_views(ranges@).take(at as int));
        }
        if !is_all_blank(&joined) {
            let chunk = CodeChunk {
                content: text_of(&joined, 0, joined.len()),
                node_type: "section".to_owned(),
                start_line: range.0,
                end_line: range.1,
                path: path.to_owned(),
                language: language.to_owned(),
            };
            assert(joined@.subrange(0, joined@.len() as int) =~= joined@);
            chunks.push(chunk);
        }
        at += 1;
    }
    assert(span_views(ranges@).take(at as int) =~= span_views(ranges@));
    chunks
}

} // verus!
