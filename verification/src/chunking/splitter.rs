//! Cutting a chunk that is too large into overlapping fragments, each cut
//! placed at the best boundary the text offers.
//!
//! Sizes, limits and overlaps are counted in bytes of the encoded text. A cut
//! never falls inside a character: where a size would end inside one, the
//! fragment ends before it, and a character that alone is larger than the
//! limit is a fragment of its own.

use vstd::prelude::*;
use vstd::string::StringExecFns;
use super::bytes::{
    are_offsets, byte_size, char_width, lemma_byte_size_of_one, lemma_offset_between,
    lemma_offset_ends, lemma_width_of_char, measure, offset_of, size_of,
};
use super::boundary::{
    boundary_between, boundary_in, greatest, least, lemma_boundary_in_bounds,
};
use super::text::{chars_of, text_of};
use super::types::{chunk_views, ChunkView, CodeChunk};

verus! {

/// Number of line feeds in `text`.
pub open spec fn newline_count(text: Seq<char>) -> nat
    decreases text.len(),
{
    if text.len() == 0 {
        0
    } else {
        newline_count(text.drop_last()) + if text.last() == '\n' {
            1nat
        } else {
            0nat
        }
    }
}

/// A text has no more line feeds than characters.
pub proof fn lemma_newline_count_bound(text: Seq<char>)
    ensures
        newline_count(text) <= text.len(),
    decreases text.len(),
{
    if text.len() > 0 {
        lemma_newline_count_bound(text.drop_last());
    }
}

/// The line feeds of two texts add up in their concatenation.
pub proof fn lemma_newline_count_concat(left: Seq<char>, right: Seq<char>)
    ensures
        newline_count(left + right) == newline_count(left) + newline_count(right),
    decreases right.len(),
{
    if right.len() > 0 {
        assert((left + right).drop_last() =~= left + right.drop_last());
        lemma_newline_count_concat(left, right.drop_last());
    }
}

/// Number of line feeds in `chars[from..to]`.
pub(crate) fn count_newlines(chars: &Vec<char>, from: usize, to: usize) -> (count: usize)
    requires
        from <= to <= chars@.len(),
    ensures
        count == newline_count(chars@.subrange(from as int, to as int)),
        count <= to - from,
{
    let mut count: usize = 0;
    let mut at: usize = from;
    while at < to
        invariant
            from <= at <= to <= chars@.len(),
            count <= at - from,
            count == newline_count(chars@.subrange(from as int, at as int)),
        decreases to - at,
    {
        assert(chars@.subrange(from as int, at + 1).drop_last() =~= chars@.subrange(
            from as int,
            at as int,
        ));
        if chars[at] == '\n' {
            count += 1;
        }
        at += 1;
    }
    count
}

/// Counts the line feeds of `content`.
pub fn count_lines(content: &str) -> (count: usize)
    ensures
        count == newline_count(content@),
{
    let chars = chars_of(content);
    assert(chars@.subrange(0, chars@.len() as int) =~= chars@);
    count_newlines(&chars, 0, chars.len())
}

/// Index of the first character from `from` on that begins at byte `bytes`
/// or later, or the length of the text if there is none.
pub open spec fn index_at_or_after(text: Seq<char>, bytes: int, from: int) -> int
    decreases text.len() - from,
{
    if from < 0 || from >= text.len() {
        text.len() as int
    } else if offset_of(text, from) >= bytes {
        from
    } else {
        index_at_or_after(text, bytes, from + 1)
    }
}

/// Index of the last character from `from` on that begins at byte `bytes`
/// or earlier, the end of the text counting as one more; `from` itself where
/// already the next begins later.
pub open spec fn index_at_or_before(text: Seq<char>, bytes: int, from: int) -> int
    decreases text.len() - from,
{
    if from < 0 || from >= text.len() || offset_of(text, from + 1) > bytes {
        from
    } else {
        index_at_or_before(text, bytes, from + 1)
    }
}

/// `index_at_or_after` answers the first index there is.
pub proof fn lemma_index_at_or_after(text: Seq<char>, bytes: int, from: int)
    requires
        0 <= from <= text.len(),
    ensures
        from <= index_at_or_after(text, bytes, from) <= text.len(),
        index_at_or_after(text, bytes, from) < text.len() ==> offset_of(
            text,
            index_at_or_after(text, bytes, from),
        ) >= bytes,
        forall|i: int|
            from <= i < index_at_or_after(text, bytes, from) ==> #[trigger] offset_of(text, i)
                < bytes,
    decreases text.len() - from,
{
    if from < text.len() && offset_of(text, from) < bytes {
        lemma_index_at_or_after(text, bytes, from + 1);
    }
}

/// `index_at_or_before` answers the last index there is.
pub proof fn lemma_index_at_or_before(text: Seq<char>, bytes: int, from: int)
    requires
        0 <= from <= text.len(),
    ensures
        from <= index_at_or_before(text, bytes, from) <= text.len(),
        offset_of(text, from) <= bytes ==> offset_of(text, index_at_or_before(text, bytes, from))
            <= bytes,
        index_at_or_before(text, bytes, from) < text.len() ==> offset_of(
            text,
            index_at_or_before(text, bytes, from) + 1,
        ) > bytes,
    decreases text.len() - from,
{
    if from < text.len() && offset_of(text, from + 1) <= bytes {
        lemma_index_at_or_before(text, bytes, from + 1);
    }
}

/// Where to cut `text` when the cut is wanted at byte `target_pos` and must
/// not lie past byte `max_pos`, as an offset in bytes: the boundary found
/// between the first character that begins at the target or later and the
/// last that begins at the limit or earlier.
pub open spec fn boundary_of(text: Seq<char>, target_pos: int, max_pos: int) -> int {
    let limit = index_at_or_before(text, max_pos, 0);
    let start = least(index_at_or_after(text, target_pos, 0), limit);
    offset_of(text, boundary_in(text, start, limit))
}

/// Index of the first character from `from` on that begins at byte `bytes`
/// or later.
fn first_at_or_after(
    chars: &Vec<char>,
    offsets: &Vec<usize>,
    bytes: usize,
    from: usize,
) -> (index: usize)
    requires
        are_offsets(offsets@, chars@),
        from <= chars@.len(),
    ensures
        index == index_at_or_after(chars@, bytes as int, from as int),
        from <= index <= chars@.len(),
{
    let mut index: usize = from;
    while index < chars.len() && offsets[index] < bytes
        invariant
            are_offsets(offsets@, chars@),
            from <= index <= chars@.len(),
            index_at_or_after(chars@, bytes as int, from as int) == index_at_or_after(
                chars@,
                bytes as int,
                index as int,
            ),
        decreases chars@.len() - index,
    {
        index += 1;
    }
    index
}

/// Index of the last character from `from` on that begins at byte `bytes`
/// or earlier.
fn last_at_or_before(
    chars: &Vec<char>,
    offsets: &Vec<usize>,
    bytes: usize,
    from: usize,
) -> (index: usize)
    requires
        are_offsets(offsets@, chars@),
        from <= chars@.len(),
    ensures
        index == index_at_or_before(chars@, bytes as int, from as int),
        from <= index <= chars@.len(),
{
    let mut index: usize = from;
    while index < chars.len() && offsets[index + 1] <= bytes
        invariant
            are_offsets(offsets@, chars@),
            from <= index <= chars@.len(),
            index_at_or_before(chars@, bytes as int, from as int) == index_at_or_before(
                chars@,
                bytes as int,
                index as int,
            ),
        decreases chars@.len() - index,
    {
        index += 1;
    }
    index
}

/// Finds where to cut `content` for a cut wanted at byte `target_pos` and
/// not past byte `max_pos`; the answer is an offset in bytes at which a
/// character begins, or the size of the content.
pub fn find_semantic_boundary(content: &str, target_pos: usize, max_pos: usize) -> (cut: usize)
    ensures
        cut == boundary_of(content@, target_pos as int, max_pos as int),
        cut <= byte_size(content@),
        cut <= max_pos,
{
    let (chars, offsets) = measure(content);
    let limit = last_at_or_before(&chars, &offsets, max_pos, 0);
    let wanted = first_at_or_after(&chars, &offsets, target_pos, 0);
    let start = if wanted < limit {
        wanted
    } else {
        limit
    };
    let cut = boundary_between(&chars, start, limit);
    proof {
        lemma_offset_ends(chars@);
        lemma_index_at_or_before(chars@, max_pos as int, 0);
        lemma_offset_between(chars@, cut as int, limit as int);
        lemma_offset_between(chars@, limit as int, chars@.len() as int);
    }
    offsets[cut]
}

/// Bytes that two consecutive fragments share: `percentage` hundredths of
/// `max_size`, rounded down, a percentage above 100 counting as 100.
pub open spec fn overlap_of(max_size: int, percentage: int) -> int {
    max_size * least(percentage, 100) / 100
}

/// Bytes from the start of a fragment to where its cut is wanted: what
/// `max_size` leaves after the overlap, and at least 1.
pub open spec fn stride_of(max_size: int, percentage: int) -> int {
    greatest(max_size - overlap_of(max_size, percentage), 1)
}

/// Most bytes a fragment may take: `max_size`, and 1 where that is 0.
pub open spec fn reach_of(max_size: int) -> int {
    greatest(max_size, 1)
}

/// Index of the first character at which the fragment that starts at `pos`
/// may end: the first to begin a stride after the start or later.
pub open spec fn target_after(text: Seq<char>, max_size: int, percentage: int, pos: int) -> int {
    index_at_or_after(text, offset_of(text, pos) + stride_of(max_size, percentage), pos)
}

/// Index past which the fragment that starts at `pos` may not end: the last
/// character to begin within reach of the start, and the character after
/// `pos` where `pos` alone is out of reach.
pub open spec fn limit_after(text: Seq<char>, max_size: int, pos: int) -> int {
    greatest(index_at_or_before(text, offset_of(text, pos) + reach_of(max_size), pos), pos + 1)
}

/// Where the fragment that starts at `pos` ends.
pub open spec fn cut_after(text: Seq<char>, max_size: int, percentage: int, pos: int) -> int {
    let limit = limit_after(text, max_size, pos);
    boundary_in(text, least(target_after(text, max_size, percentage, pos), limit), limit)
}

/// Where the fragment after the one cut at `cut` starts: at the first
/// character that begins no more than the overlap before the cut, but after
/// the start `pos` of the fragment before.
pub open spec fn next_start(
    text: Seq<char>,
    max_size: int,
    percentage: int,
    pos: int,
    cut: int,
) -> int {
    greatest(
        index_at_or_after(text, offset_of(text, cut) - overlap_of(max_size, percentage), pos),
        pos + 1,
    )
}

/// The ranges of `text` that the fragments from `pos` on hold, in order, as
/// indices of characters.
pub open spec fn cuts_from(text: Seq<char>, max_size: int, percentage: int, pos: int) -> Seq<
    (int, int),
>
    decreases text.len() - pos,
    via cuts_from_decreases
{
    if pos < 0 || pos >= text.len() || max_size < 0 || percentage < 0 {
        Seq::empty()
    } else {
        let cut = cut_after(text, max_size, percentage, pos);
        if cut >= text.len() {
            seq![(pos, cut)]
        } else {
            seq![(pos, cut)] + cuts_from(
                text,
                max_size,
                percentage,
                next_start(text, max_size, percentage, pos, cut),
            )
        }
    }
}

#[via_fn]
proof fn cuts_from_decreases(text: Seq<char>, max_size: int, percentage: int, pos: int) {
    if 0 <= pos < text.len() && 0 <= max_size && 0 <= percentage {
        lemma_cut_after_bounds(text, max_size, percentage, pos);
        let cut = cut_after(text, max_size, percentage, pos);
        if cut < text.len() {
            lemma_next_start_bounds(text, max_size, percentage, pos, cut);
        }
    }
}

/// The ranges of a text in bytes, given as ranges of characters.
pub open spec fn byte_ranges(text: Seq<char>, ranges: Seq<(int, int)>) -> Seq<(int, int)> {
    ranges.map_values(|range: (int, int)| (offset_of(text, range.0), offset_of(text, range.1)))
}

/// `line + count`, or the largest line number where that is out of range.
pub open spec fn add_lines(line: usize, count: nat) -> usize {
    if line + count > usize::MAX {
        usize::MAX
    } else {
        (line + count) as usize
    }
}

/// The fragment of `chunk` that holds the characters `from..to` of its
/// content: tagged as a part, starting as many lines after the chunk's first
/// line as there are line feeds before `from`, and ending as many lines later
/// as it holds line feeds.
pub open spec fn fragment_of(chunk: ChunkView, from: int, to: int) -> ChunkView {
    let first = add_lines(chunk.start_line, newline_count(chunk.content.subrange(0, from)));
    ChunkView {
        content: chunk.content.subrange(from, to),
        node_type: chunk.node_type + "_part"@,
        start_line: first,
        end_line: add_lines(first, newline_count(chunk.content.subrange(from, to))),
        path: chunk.path,
        language: chunk.language,
    }
}

/// The fragments of `chunk` that hold the ranges `ranges` of its content.
pub open spec fn fragments_of(chunk: ChunkView, ranges: Seq<(int, int)>) -> Seq<ChunkView> {
    ranges.map_values(|range: (int, int)| fragment_of(chunk, range.0, range.1))
}

/// What splitting gives: the chunk itself where its content takes no more
/// than `max_size` bytes, else its fragments.
pub open spec fn split_of(chunk: ChunkView, max_size: int, percentage: int) -> Seq<ChunkView> {
    if byte_size(chunk.content) <= max_size {
        seq![chunk]
    } else {
        fragments_of(chunk, cuts_from(chunk.content, max_size, percentage, 0))
    }
}

/// The overlap never exceeds `max_size`, and the stride never exceeds what a
/// fragment may take.
pub proof fn lemma_overlap_bounds(max_size: int, percentage: int)
    requires
        0 <= max_size,
        0 <= percentage,
    ensures
        0 <= overlap_of(max_size, percentage) <= max_size,
        1 <= stride_of(max_size, percentage) <= reach_of(max_size),
        percentage == 0 ==> overlap_of(max_size, percentage) == 0,
{
    let capped = least(percentage, 100);
    assert(0 <= max_size * capped <= max_size * 100) by (nonlinear_arith)
        requires
            0 <= max_size,
            0 <= capped <= 100,
    ;
    assert(percentage == 0 ==> max_size * capped == 0) by (nonlinear_arith)
        requires
            capped == least(percentage, 100),
    ;
}

/// The fragment that starts inside the text ends after its start and within
/// the text; it takes no more bytes than a fragment may, or is the one
/// character at its start.
pub proof fn lemma_cut_after_bounds(text: Seq<char>, max_size: int, percentage: int, pos: int)
    requires
        0 <= max_size,
        0 <= percentage,
        0 <= pos < text.len(),
    ensures
        pos < cut_after(text, max_size, percentage, pos) <= text.len(),
        offset_of(text, cut_after(text, max_size, percentage, pos)) - offset_of(text, pos)
            <= reach_of(max_size) || cut_after(text, max_size, percentage, pos) == pos + 1,
{
    lemma_overlap_bounds(max_size, percentage);
    let begin = offset_of(text, pos);
    let target = target_after(text, max_size, percentage, pos);
    let reached = index_at_or_before(text, begin + reach_of(max_size), pos);
    let limit = limit_after(text, max_size, pos);
    lemma_index_at_or_after(text, begin + stride_of(max_size, percentage), pos);
    lemma_index_at_or_before(text, begin + reach_of(max_size), pos);
    let start = least(target, limit);
    lemma_boundary_in_bounds(text, start, limit);
    let cut = cut_after(text, max_size, percentage, pos);
    if reached > pos {
        lemma_offset_between(text, cut, limit);
    }
}

/// The fragment after one that ends inside the text starts after the start
/// of that one, at or before its end, and no more than the overlap before
/// that end.
pub proof fn lemma_next_start_bounds(
    text: Seq<char>,
    max_size: int,
    percentage: int,
    pos: int,
    cut: int,
)
    requires
        0 <= max_size,
        0 <= percentage,
        0 <= pos < cut < text.len(),
    ensures
        pos < next_start(text, max_size, percentage, pos, cut) <= cut,
        offset_of(text, next_start(text, max_size, percentage, pos, cut)) >= offset_of(text, cut)
            - overlap_of(max_size, percentage),
{
    lemma_overlap_bounds(max_size, percentage);
    let wanted = offset_of(text, cut) - overlap_of(max_size, percentage);
    let found = index_at_or_after(text, wanted, pos);
    lemma_index_at_or_after(text, wanted, pos);
    if found > cut {
        assert(offset_of(text, cut) < wanted);
    }
    if found < pos + 1 {
        lemma_offset_between(text, found, pos + 1);
    }
}

/// The overlap to use between fragments of at most `max_size` bytes.
pub fn overlap_size(max_size: usize, overlap_percentage: usize) -> (overlap: usize)
    ensures
        overlap == overlap_of(max_size as int, overlap_percentage as int),
        overlap <= max_size,
{
    let capped: usize = if overlap_percentage < 100 {
        overlap_percentage
    } else {
        100
    };
    let hundreds: usize = max_size / 100;
    let rest: usize = max_size % 100;
    proof {
        lemma_overlap_bounds(max_size as int, overlap_percentage as int);
        assert(max_size * capped == 100 * (hundreds * capped) + rest * capped) by (nonlinear_arith)
            requires
                max_size == 100 * hundreds + rest,
        ;
        assert(0 <= rest * capped <= 99 * 100) by (nonlinear_arith)
            requires
                0 <= rest <= 99,
                0 <= capped <= 100,
        ;
    }
    hundreds * capped + rest * capped / 100
}

/// The ranges of a list, as pairs of integers.
pub open spec fn span_pairs(spans: Seq<(usize, usize)>) -> Seq<(int, int)> {
    spans.map_values(|span: (usize, usize)| (span.0 as int, span.1 as int))
}

/// Where the fragment of `chars` that starts at `pos` ends.
fn fragment_end(
    chars: &Vec<char>,
    offsets: &Vec<usize>,
    max_size: usize,
    overlap_percentage: usize,
    pos: usize,
) -> (cut: usize)
    requires
        are_offsets(offsets@, chars@),
        pos < chars@.len(),
    ensures
        cut == cut_after(chars@, max_size as int, overlap_percentage as int, pos as int),
        pos < cut <= chars@.len(),
{
    let len = chars.len();
    let overlap = overlap_size(max_size, overlap_percentage);
    let stride: usize = if max_size - overlap >= 1 {
        max_size - overlap
    } else {
        1
    };
    let reach: usize = if max_size >= 1 {
        max_size
    } else {
        1
    };
    let begin = offsets[pos];
    proof {
        lemma_offset_ends(chars@);
        lemma_offset_between(chars@, pos as int, len as int);
        lemma_cut_after_bounds(chars@, max_size as int, overlap_percentage as int, pos as int);
        lemma_offsets_within(chars@, begin + stride, begin + reach, pos as int);
    }
    let room = offsets[len] - begin;
    let target = if stride > room {
        len
    } else {
        first_at_or_after(chars, offsets, begin + stride, pos)
    };
    assert(target == target_after(
        chars@,
        max_size as int,
        overlap_percentage as int,
        pos as int,
    ));
    let reached = if reach >= room {
        len
    } else {
        last_at_or_before(chars, offsets, begin + reach, pos)
    };
    let limit = if reached > pos {
        reached
    } else {
        pos + 1
    };
    assert(limit == limit_after(chars@, max_size as int, pos as int));
    let start = if target < limit {
        target
    } else {
        limit
    };
    boundary_between(chars, start, limit)
}

/// Where the fragment of `chars` after the one from `pos` to `cut` starts.
fn fragment_start(
    chars: &Vec<char>,
    offsets: &Vec<usize>,
    max_size: usize,
    overlap_percentage: usize,
    pos: usize,
    cut: usize,
) -> (next: usize)
    requires
        are_offsets(offsets@, chars@),
        pos < cut < chars@.len(),
    ensures
        next == next_start(
            chars@,
            max_size as int,
            overlap_percentage as int,
            pos as int,
            cut as int,
        ),
        pos < next <= cut,
{
    let overlap = overlap_size(max_size, overlap_percentage);
    proof {
        lemma_next_start_bounds(
            chars@,
            max_size as int,
            overlap_percentage as int,
            pos as int,
            cut as int,
        );
    }
    let wanted = offsets[cut].saturating_sub(overlap);
    let found = first_at_or_after(chars, offsets, wanted, pos);
    proof {
        if offsets@[cut as int] < overlap {
            assert(offset_of(chars@, pos as int) >= 0);
            assert(index_at_or_after(chars@, wanted as int, pos as int) == pos);
            assert(index_at_or_after(chars@, offsets@[cut as int] - overlap, pos as int) == pos);
        }
    }
    if found > pos {
        found
    } else {
        pos + 1
    }
}

/// The ranges that splitting `chars` gives, in order, as indices of
/// characters.
fn cut_indices(
    chars: &Vec<char>,
    offsets: &Vec<usize>,
    max_size: usize,
    overlap_percentage: usize,
) -> (cuts: Vec<(usize, usize)>)
    requires
        are_offsets(offsets@, chars@),
    ensures
        span_pairs(cuts@) == cuts_from(chars@, max_size as int, overlap_percentage as int, 0),
        forall|i: int|
            0 <= i < cuts@.len() ==> (#[trigger] cuts@[i]).0 < cuts@[i].1 <= chars@.len(),
        forall|i: int| 0 <= i < cuts@.len() - 1 ==> (#[trigger] cuts@[i]).0 < cuts@[i + 1].0,
{
    let len = chars.len();
    let mut cuts: Vec<(usize, usize)> = Vec::new();
    let mut pos: usize = 0;
    assert(span_pairs(cuts@) =~= Seq::<(int, int)>::empty());
    while pos < len
        invariant
            pos <= len,
            len == chars@.len(),
            are_offsets(offsets@, chars@),
            cuts_from(chars@, max_size as int, overlap_percentage as int, 0) == span_pairs(cuts@)
                + cuts_from(chars@, max_size as int, overlap_percentage as int, pos as int),
            forall|i: int|
                0 <= i < cuts@.len() ==> (#[trigger] cuts@[i]).0 < cuts@[i].1 <= chars@.len(),
            forall|i: int| 0 <= i < cuts@.len() - 1 ==> (#[trigger] cuts@[i]).0 < cuts@[i + 1].0,
            cuts@.len() > 0 ==> cuts@[cuts@.len() - 1].0 < pos,
        decreases len - pos,
    {
        let cut = fragment_end(chars, offsets, max_size, overlap_percentage, pos);
        let ghost before = cuts@;
        let ghost rest = cuts_from(chars@, max_size as int, overlap_percentage as int, pos as int);
        cuts.push((pos, cut));
        assert(span_pairs(cuts@) =~= span_pairs(before).push((pos as int, cut as int)));
        if cut >= len {
            assert(rest =~= seq![(pos as int, cut as int)]);
            pos = len;
        } else {
            let next = fragment_start(chars, offsets, max_size, overlap_percentage, pos, cut);
            assert(rest =~= seq![(pos as int, cut as int)] + cuts_from(
                chars@,
                max_size as int,
                overlap_percentage as int,
                next as int,
            ));
            pos = next;
        }
    }
    cuts
}

/// Past the size of the text no character begins, and all begin within it.
proof fn lemma_offsets_within(text: Seq<char>, wanted: int, reached: int, from: int)
    requires
        0 <= from <= text.len(),
    ensures
        wanted > byte_size(text) ==> index_at_or_after(text, wanted, from) == text.len(),
        reached >= byte_size(text) ==> index_at_or_before(text, reached, from) == text.len(),
    decreases text.len() - from,
{
    lemma_offset_ends(text);
    if from < text.len() {
        lemma_offset_between(text, from, text.len() as int);
        lemma_offset_between(text, from + 1, text.len() as int);
        lemma_offsets_within(text, wanted, reached, from + 1);
    }
}

/// The ranges that splitting `content` gives, in order, as offsets in bytes.
pub fn split_points(content: &str, max_size: usize, overlap_percentage: usize) -> (cuts: Vec<
    (usize, usize),
>)
    ensures
        span_pairs(cuts@) == byte_ranges(
            content@,
            cuts_from(content@, max_size as int, overlap_percentage as int, 0),
        ),
{
    let (chars, offsets) = measure(content);
    let indices = cut_indices(&chars, &offsets, max_size, overlap_percentage);
    let mut cuts: Vec<(usize, usize)> = Vec::new();
    let mut at: usize = 0;
    while at < indices.len()
        invariant
            at <= indices@.len(),
            are_offsets(offsets@, chars@),
            forall|i: int|
                0 <= i < indices@.len() ==> (#[trigger] indices@[i]).0 < indices@[i].1
                    <= chars@.len(),
            cuts@.len() == at,
            forall|i: int|
                0 <= i < at ==> (#[trigger] cuts@[i]) == (
                    offsets@[indices@[i].0 as int],
                    offsets@[indices@[i].1 as int],
                ),
        decreases indices@.len() - at,
    {
        let (from, to) = indices[at];
        cuts.push((offsets[from], offsets[to]));
        at += 1;
    }
    cuts
}

/// A longer beginning of a text has no fewer line feeds than a shorter one.
pub proof fn lemma_newline_count_prefix(text: Seq<char>, shorter: int, longer: int)
    requires
        0 <= shorter <= longer <= text.len(),
    ensures
        newline_count(text.subrange(0, longer)) == newline_count(text.subrange(0, shorter))
            + newline_count(text.subrange(shorter, longer)),
{
    assert(text.subrange(0, longer) =~= text.subrange(0, shorter) + text.subrange(
        shorter,
        longer,
    ));
    lemma_newline_count_concat(text.subrange(0, shorter), text.subrange(shorter, longer));
}

/// Splits a chunk whose content takes more than `max_size` bytes into
/// fragments that overlap by `overlap_percentage` hundredths of `max_size`;
/// a chunk that fits comes back alone and unchanged.
pub fn split_large_chunk(chunk: &CodeChunk, max_size: usize, overlap_percentage: usize) -> (fragments:
    Vec<CodeChunk>)
    ensures
        chunk_views(fragments@) == split_of(chunk@, max_size as int, overlap_percentage as int),
{
    if size_of(chunk.content.as_str()) <= max_size {
        let whole = chunk.duplicate();
        let fragments = vec![whole];
        return fragments;
    }
    let (chars, offsets) = measure(chunk.content.as_str());
    let cuts = cut_indices(&chars, &offsets, max_size, overlap_percentage);
    let ghost ranges = span_pairs(cuts@);
    let mut fragments: Vec<CodeChunk> = Vec::new();
    let mut counted: usize = 0;
    let mut lines_before: usize = 0;
    let mut at: usize = 0;
    while at < cuts.len()
        invariant
            at <= cuts@.len(),
            chars@ == chunk@.content,
            ranges == span_pairs(cuts@),
            forall|i: int|
                0 <= i < cuts@.len() ==> (#[trigger] cuts@[i]).0 < cuts@[i].1 <= chars@.len(),
            forall|i: int| 0 <= i < cuts@.len() - 1 ==> (#[trigger] cuts@[i]).0 < cuts@[i + 1].0,
            counted <= chars@.len(),
            at < cuts@.len() ==> counted <= cuts@[at as int].0,
            lines_before == newline_count(chars@.subrange(0, counted as int)),
            chunk_views(fragments@) == fragments_of(chunk@, ranges.take(at as int)),
        decreases cuts@.len() - at,
    {
        let (from, to) = cuts[at];
        proof {
            lemma_newline_count_prefix(chars@, counted as int, from as int);
            lemma_newline_count_bound(chars@.subrange(0, from as int));
        }
        lines_before = lines_before + count_newlines(&chars, counted, from);
        counted = from;
        let inside = count_newlines(&chars, from, to);
        let first = chunk.start_line.saturating_add(lines_before);
        let piece = CodeChunk {
            content: text_of(&chars, from, to),
            node_type: chunk.node_type.clone().concat("_part"),
            start_line: first,
            end_line: first.saturating_add(inside),
            path: chunk.path.clone(),
            language: chunk.language.clone(),
        };
        fragments.push(piece);
        proof {
            assert(fragments_of(chunk@, ranges.take(at + 1)) =~= fragments_of(
                chunk@,
                ranges.take(at as int),
            ).push(piece@));
        }
        at += 1;
    }
    fragments
}

/// The shape of the ranges that splitting gives from `pos` on: the first
/// starts at `pos` and the last ends the text; none is empty, and each takes no
/// more bytes than a fragment may or is a single character; each next one
/// starts after the start of the one before, at or before its end, and no more
/// than the overlap before that end.
pub proof fn lemma_cuts_shape(text: Seq<char>, max_size: int, percentage: int, pos: int)
    requires
        0 <= max_size,
        0 <= percentage,
        0 <= pos < text.len(),
    ensures
        cuts_from(text, max_size, percentage, pos).len() >= 1,
        cuts_from(text, max_size, percentage, pos)[0].0 == pos,
        cuts_from(text, max_size, percentage, pos).last().1 == text.len(),
        forall|i: int|
            0 <= i < cuts_from(text, max_size, percentage, pos).len() ==> {
                let range = #[trigger] cuts_from(text, max_size, percentage, pos)[i];
                &&& pos <= range.0 < range.1 <= text.len()
                &&& (offset_of(text, range.1) - offset_of(text, range.0) <= reach_of(max_size)
                    || range.1 == range.0 + 1)
            },
        forall|i: int|
            0 <= i < cuts_from(text, max_size, percentage, pos).len() - 1 ==> {
                let range = #[trigger] cuts_from(text, max_size, percentage, pos)[i];
                let next = cuts_from(text, max_size, percentage, pos)[i + 1];
                &&& range.0 < next.0 <= range.1
                &&& offset_of(text, range.1) - overlap_of(max_size, percentage) <= offset_of(
                    text,
                    next.0,
                )
            },
    decreases text.len() - pos,
{
    lemma_cut_after_bounds(text, max_size, percentage, pos);
    let cut = cut_after(text, max_size, percentage, pos);
    let cuts = cuts_from(text, max_size, percentage, pos);
    if cut < text.len() {
        lemma_next_start_bounds(text, max_size, percentage, pos, cut);
        let next = next_start(text, max_size, percentage, pos, cut);
        lemma_cuts_shape(text, max_size, percentage, next);
        assert forall|i: int| 0 <= i < cuts.len() implies {
            let range = #[trigger] cuts[i];
            &&& pos <= range.0 < range.1 <= text.len()
            &&& (offset_of(text, range.1) - offset_of(text, range.0) <= reach_of(max_size)
                || range.1 == range.0 + 1)
        } by {}
        assert forall|i: int| 0 <= i < cuts.len() - 1 implies {
            let range = #[trigger] cuts[i];
            let next = cuts[i + 1];
            &&& range.0 < next.0 <= range.1
            &&& offset_of(text, range.1) - overlap_of(max_size, percentage) <= offset_of(
                text,
                next.0,
            )
        } by {}
    }
}

/// The text takes no more than `max_size` bytes, or is a single character.
pub open spec fn fits(text: Seq<char>, max_size: int) -> bool {
    byte_size(text) <= max_size || text.len() == 1
}

/// No fragment of a chunk is empty.
pub proof fn lemma_fragments_not_empty(chunk: ChunkView, max_size: int, percentage: int)
    requires
        0 <= max_size < byte_size(chunk.content),
        0 <= percentage,
    ensures
        forall|i: int|
            0 <= i < split_of(chunk, max_size, percentage).len() ==> (#[trigger] split_of(
                chunk,
                max_size,
                percentage,
            )[i]).content.len() >= 1,
{
    lemma_offset_ends(chunk.content);
    lemma_cuts_shape(chunk.content, max_size, percentage, 0);
}

/// Every chunk that splitting gives takes no more than `max_size` bytes, or
/// is a single character that alone takes more.
pub proof fn lemma_fragments_fit(chunk: ChunkView, max_size: int, percentage: int)
    requires
        0 <= max_size,
        0 <= percentage,
    ensures
        forall|i: int|
            0 <= i < split_of(chunk, max_size, percentage).len() ==> fits(
                (#[trigger] split_of(chunk, max_size, percentage)[i]).content,
                max_size,
            ),
{
    if byte_size(chunk.content) > max_size {
        let text = chunk.content;
        lemma_offset_ends(text);
        lemma_cuts_shape(text, max_size, percentage, 0);
        let cuts = cuts_from(text, max_size, percentage, 0);
        assert forall|i: int| 0 <= i < split_of(chunk, max_size, percentage).len() implies fits(
            (#[trigger] split_of(chunk, max_size, percentage)[i]).content,
            max_size,
        ) by {
            let range = cuts[i];
            lemma_offset_between(text, range.0, range.1);
        }
    }
}

/// Where no character of a chunk takes more than `max_size` bytes, every
/// chunk that splitting gives takes no more than `max_size` bytes.
pub proof fn lemma_fragments_fit_in_limit(chunk: ChunkView, max_size: int, percentage: int)
    requires
        0 <= percentage,
        forall|k: int| 0 <= k < chunk.content.len() ==> char_width(#[trigger] chunk.content[k])
            <= max_size,
    ensures
        forall|i: int|
            0 <= i < split_of(chunk, max_size, percentage).len() ==> byte_size(
                (#[trigger] split_of(chunk, max_size, percentage)[i]).content,
            ) <= max_size,
{
    if byte_size(chunk.content) > max_size && chunk.content.len() > 0 {
        let text = chunk.content;
        lemma_offset_ends(text);
        lemma_width_of_char(text[0]);
        lemma_fragments_fit(chunk, max_size, percentage);
        lemma_cuts_shape(text, max_size, percentage, 0);
        let cuts = cuts_from(text, max_size, percentage, 0);
        assert forall|i: int| 0 <= i < split_of(chunk, max_size, percentage).len() implies byte_size(
            (#[trigger] split_of(chunk, max_size, percentage)[i]).content,
        ) <= max_size by {
            let range = cuts[i];
            let piece = text.subrange(range.0, range.1);
            if piece.len() == 1 {
                assert(piece =~= seq![text[range.0]]);
                lemma_byte_size_of_one(text[range.0]);
            }
        }
    }
}

/// Where `max_size` is at least 4, which every character fits, every chunk
/// that splitting gives takes no more than `max_size` bytes.
pub proof fn lemma_fragments_fit_wide_limit(chunk: ChunkView, max_size: int, percentage: int)
    requires
        4 <= max_size,
        0 <= percentage,
    ensures
        forall|i: int|
            0 <= i < split_of(chunk, max_size, percentage).len() ==> byte_size(
                (#[trigger] split_of(chunk, max_size, percentage)[i]).content,
            ) <= max_size,
{
    lemma_fragments_fit_in_limit(chunk, max_size, percentage);
}

/// Splitting always gives at least one chunk.
pub proof fn lemma_split_not_empty(chunk: ChunkView, max_size: int, percentage: int)
    requires
        0 <= max_size,
        0 <= percentage,
    ensures
        split_of(chunk, max_size, percentage).len() >= 1,
{
    if byte_size(chunk.content) > max_size {
        lemma_offset_ends(chunk.content);
        lemma_cuts_shape(chunk.content, max_size, percentage, 0);
    }
}

/// The first lines of the fragments of a chunk never go down from one
/// fragment to a later one.
pub proof fn lemma_fragments_start_in_order(
    chunk: ChunkView,
    max_size: int,
    percentage: int,
    earlier: int,
    later: int,
)
    requires
        0 <= max_size,
        0 <= percentage,
        0 <= earlier <= later < split_of(chunk, max_size, percentage).len(),
    ensures
        split_of(chunk, max_size, percentage)[earlier].start_line <= split_of(
            chunk,
            max_size,
            percentage,
        )[later].start_line,
    decreases later - earlier,
{
    if byte_size(chunk.content) > max_size && earlier < later {
        lemma_fragments_start_in_order(chunk, max_size, percentage, earlier, later - 1);
        lemma_offset_ends(chunk.content);
        lemma_cuts_shape(chunk.content, max_size, percentage, 0);
        let cuts = cuts_from(chunk.content, max_size, percentage, 0);
        let range = cuts[later - 1];
        let next = cuts[later];
        lemma_newline_count_prefix(chunk.content, range.0, next.0);
    }
}

/// Splitting a chunk that does not end before it starts gives chunks that
/// do not either.
pub proof fn lemma_split_keeps_well_formed(chunk: ChunkView, max_size: int, percentage: int)
    requires
        chunk.well_formed(),
    ensures
        forall|i: int|
            0 <= i < split_of(chunk, max_size, percentage).len() ==> (#[trigger] split_of(
                chunk,
                max_size,
                percentage,
            )[i]).well_formed(),
{
}

/// The contents of the chunks of a list, one after the other.
pub open spec fn joined_content(chunks: Seq<ChunkView>) -> Seq<char>
    decreases chunks.len(),
{
    if chunks.len() == 0 {
        Seq::empty()
    } else {
        chunks[0].content + joined_content(chunks.drop_first())
    }
}

/// Without overlap a fragment starts where the one before it ends.
pub proof fn lemma_next_start_without_overlap(text: Seq<char>, max_size: int, pos: int, cut: int)
    requires
        0 <= max_size,
        0 <= pos < cut < text.len(),
    ensures
        next_start(text, max_size, 0, pos, cut) == cut,
{
    lemma_overlap_bounds(max_size, 0);
    lemma_next_start_bounds(text, max_size, 0, pos, cut);
    let next = next_start(text, max_size, 0, pos, cut);
    if next < cut {
        lemma_offset_between(text, next, cut);
    }
}

/// Without overlap each range starts where the one before ends, so that no
/// two ranges share a byte.
pub proof fn lemma_cuts_without_overlap(text: Seq<char>, max_size: int, pos: int)
    requires
        0 <= max_size,
        0 <= pos < text.len(),
    ensures
        forall|i: int|
            0 <= i < cuts_from(text, max_size, 0, pos).len() - 1 ==> (#[trigger] cuts_from(
                text,
                max_size,
                0,
                pos,
            )[i]).1 == cuts_from(text, max_size, 0, pos)[i + 1].0,
        forall|i: int, j: int|
            0 <= i < j < cuts_from(text, max_size, 0, pos).len() ==> (#[trigger] cuts_from(
                text,
                max_size,
                0,
                pos,
            )[i]).1 <= (#[trigger] cuts_from(text, max_size, 0, pos)[j]).0,
    decreases text.len() - pos,
{
    lemma_cut_after_bounds(text, max_size, 0, pos);
    lemma_cuts_shape(text, max_size, 0, pos);
    let cut = cut_after(text, max_size, 0, pos);
    if cut < text.len() {
        lemma_next_start_without_overlap(text, max_size, pos, cut);
        lemma_cuts_without_overlap(text, max_size, cut);
        lemma_cuts_shape(text, max_size, 0, cut);
    }
}

/// Without overlap the fragments from `pos` on, put together, are the text
/// from `pos` on.
pub proof fn lemma_fragments_rebuild_from(chunk: ChunkView, max_size: int, pos: int)
    requires
        0 <= max_size,
        0 <= pos < chunk.content.len(),
    ensures
        joined_content(fragments_of(chunk, cuts_from(chunk.content, max_size, 0, pos)))
            == chunk.content.subrange(pos, chunk.content.len() as int),
    decreases chunk.content.len() - pos,
{
    let text = chunk.content;
    lemma_cut_after_bounds(text, max_size, 0, pos);
    let cut = cut_after(text, max_size, 0, pos);
    let cuts = cuts_from(text, max_size, 0, pos);
    let pieces = fragments_of(chunk, cuts);
    if cut < text.len() {
        lemma_next_start_without_overlap(text, max_size, pos, cut);
        let rest = cuts_from(text, max_size, 0, cut);
        lemma_fragments_rebuild_from(chunk, max_size, cut);
        assert(pieces.drop_first() =~= fragments_of(chunk, rest));
    } else {
        assert(pieces.drop_first() =~= Seq::<ChunkView>::empty());
        assert(joined_content(Seq::<ChunkView>::empty()) =~= Seq::<char>::empty());
    }
}

/// Split without overlap, a chunk is rebuilt exactly by putting the contents
/// of its fragments one after the other.
pub proof fn lemma_split_without_overlap_rebuilds(chunk: ChunkView, max_size: int)
    requires
        0 <= max_size,
    ensures
        joined_content(split_of(chunk, max_size, 0)) == chunk.content,
{
    if byte_size(chunk.content) > max_size {
        lemma_offset_ends(chunk.content);
        lemma_fragments_rebuild_from(chunk, max_size, 0);
    } else {
        assert(seq![chunk].drop_first() =~= Seq::<ChunkView>::empty());
        assert(joined_content(Seq::<ChunkView>::empty()) =~= Seq::<char>::empty());
    }
}

} // verus!
