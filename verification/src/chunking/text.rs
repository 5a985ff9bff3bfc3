//! Text as sequences of characters: conversions between `str` and `Vec<char>`
//! and the few searches the chunking rules need.

use vstd::prelude::*;

verus! {

/// `String::push` of std appends the character to the end of the string and
/// changes nothing else.
pub assume_specification[ String::push ](text: &mut String, c: char)
    ensures
        final(text)@ == old(text)@.push(c),
;

/// The characters of `text`, in order.
pub fn chars_of(text: &str) -> (chars: Vec<char>)
    ensures
        chars@ == text@,
{
    let mut chars: Vec<char> = Vec::new();
    for c in it: text.chars()
        invariant
            chars@ == it.seq().take(it.index() as int),
    {
        chars.push(c);
    }
    chars
}

/// Appends `chars[from..to]` to `out`.
pub(crate) fn append_chars(out: &mut String, chars: &Vec<char>, from: usize, to: usize)
    requires
        from <= to <= chars@.len(),
    ensures
        final(out)@ == old(out)@ + chars@.subrange(from as int, to as int),
{
    let mut i: usize = from;
    while i < to
        invariant
            from <= i <= to <= chars@.len(),
            out@ == old(out)@ + chars@.subrange(from as int, i as int),
        decreases to - i,
    {
        out.push(chars[i]);
        i += 1;
    }
}

/// The string made of `chars[from..to]`.
pub(crate) fn text_of(chars: &Vec<char>, from: usize, to: usize) -> (text: String)
    requires
        from <= to <= chars@.len(),
    ensures
        text@ == chars@.subrange(from as int, to as int),
{
    let mut text = String::new();
    append_chars(&mut text, chars, from, to);
    text
}

/// `needle` occurs in `hay` at index `at`.
pub open spec fn occurs_at(hay: Seq<char>, needle: Seq<char>, at: int) -> bool {
    &&& 0 <= at
    &&& at + needle.len() <= hay.len()
    &&& hay.subrange(at, at + needle.len()) == needle
}

/// `needle` occurs somewhere in `hay`.
pub open spec fn contains_text(hay: Seq<char>, needle: Seq<char>) -> bool {
    exists|at: int| occurs_at(hay, needle, at)
}

/// `hay` begins with `prefix`.
pub open spec fn starts_with(hay: Seq<char>, prefix: Seq<char>) -> bool {
    occurs_at(hay, prefix, 0)
}

/// `hay` ends with `suffix`.
pub open spec fn ends_with(hay: Seq<char>, suffix: Seq<char>) -> bool {
    occurs_at(hay, suffix, hay.len() - suffix.len())
}

/// Whether `needle` occurs in `hay[from..to]` at index `at` of `hay`.
pub(crate) fn matches_at(hay: &Vec<char>, to: usize, needle: &Vec<char>, at: usize) -> (found: bool)
    requires
        at <= to <= hay@.len(),
    ensures
        found == occurs_at(hay@.subrange(0, to as int), needle@, at as int),
{
    if needle.len() > to - at {
        return false;
    }
    let ghost window = hay@.subrange(0, to as int);
    let mut k: usize = 0;
    while k < needle.len()
        invariant
            at <= to <= hay@.len(),
            needle@.len() <= to - at,
            k <= needle@.len(),
            window == hay@.subrange(0, to as int),
            window.subrange(at as int, at + k) == needle@.subrange(0, k as int),
        decreases needle@.len() - k,
    {
        if hay[at + k] != needle[k] {
            return false;
        }
        k += 1;
    }
    assert(needle@.subrange(0, k as int) =~= needle@);
    true
}

/// Whether `needle` occurs anywhere in `hay`.
pub fn contains(hay: &Vec<char>, needle: &Vec<char>) -> (found: bool)
    ensures
        found == contains_text(hay@, needle@),
{
    let n = hay.len();
    let mut at: usize = 0;
    loop
        invariant
            at <= n,
            n == hay@.len(),
            hay@.subrange(0, n as int) == hay@,
            forall|j: int| 0 <= j < at ==> !occurs_at(hay@, needle@, j),
        decreases n - at,
    {
        if matches_at(hay, n, needle, at) {
            return true;
        }
        if at == n {
            return false;
        }
        at += 1;
    }
}

/// Whether `chars` ends with `suffix`.
pub fn has_suffix(chars: &Vec<char>, suffix: &str) -> (found: bool)
    ensures
        found == ends_with(chars@, suffix@),
{
    let tail = chars_of(suffix);
    assert(chars@.subrange(0, chars@.len() as int) =~= chars@);
    if tail.len() > chars.len() {
        false
    } else {
        matches_at(chars, chars.len(), &tail, chars.len() - tail.len())
    }
}

/// Whether `chars` is the text `word`.
pub fn is_text(chars: &Vec<char>, word: &str) -> (same: bool)
    ensures
        same == (chars@ == word@),
{
    let other = chars_of(word);
    assert(chars@.subrange(0, chars@.len() as int) =~= chars@);
    if other.len() != chars.len() {
        false
    } else {
        matches_at(chars, chars.len(), &other, 0)
    }
}

/// `c` is white space as Unicode defines it, which is what `str::trim` removes.
pub open spec fn is_blank(c: char) -> bool {
    let code = c as u32;
    ||| 0x09 <= code <= 0x0d
    ||| code == 0x20
    ||| code == 0x85
    ||| code == 0xa0
    ||| code == 0x1680
    ||| 0x2000 <= code <= 0x200a
    ||| code == 0x2028
    ||| code == 0x2029
    ||| code == 0x202f
    ||| code == 0x205f
    ||| code == 0x3000
}

/// Whether `c` is white space.
pub fn is_whitespace(c: char) -> (blank: bool)
    ensures
        blank == is_blank(c),
{
    let code: u32 = c as u32;
    (0x09 <= code && code <= 0x0d) || code == 0x20 || code == 0x85 || code == 0xa0 || code
        == 0x1680 || (0x2000 <= code && code <= 0x200a) || code == 0x2028 || code == 0x2029 || code
        == 0x202f || code == 0x205f || code == 0x3000
}

/// Every character of `text` is white space.
pub open spec fn all_blank(text: Seq<char>) -> bool {
    forall|i: int| 0 <= i < text.len() ==> is_blank(#[trigger] text[i])
}

/// Whether `chars` holds white space only.
pub fn is_all_blank(chars: &Vec<char>) -> (blank: bool)
    ensures
        blank == all_blank(chars@),
{
    let mut i: usize = 0;
    while i < chars.len()
        invariant
            i <= chars@.len(),
            forall|j: int| 0 <= j < i ==> is_blank(#[trigger] chars@[j]),
        decreases chars@.len() - i,
    {
        if !is_whitespace(chars[i]) {
            return false;
        }
        i += 1;
    }
    true
}

/// Index of the first character of `text[from..to]` that is not white space,
/// or `to` if there is none.
pub open spec fn trim_start(text: Seq<char>, from: int, to: int) -> int
    decreases to - from,
{
    if from >= to || !is_blank(text[from]) {
        from
    } else {
        trim_start(text, from + 1, to)
    }
}

/// Index after the last character of `text[from..to]` that is not white
/// space, or `from` if there is none.
pub open spec fn trim_end(text: Seq<char>, from: int, to: int) -> int
    decreases to - from,
{
    if from >= to || !is_blank(text[to - 1]) {
        to
    } else {
        trim_end(text, from, to - 1)
    }
}

/// `text` without the white space at its two ends.
pub open spec fn trimmed(text: Seq<char>) -> Seq<char> {
    let start = trim_start(text, 0, text.len() as int);
    text.subrange(start, trim_end(text, start, text.len() as int))
}

/// `trim_start` stays within its range.
pub proof fn lemma_trim_start_bounds(text: Seq<char>, from: int, to: int)
    requires
        from <= to,
    ensures
        from <= trim_start(text, from, to) <= to,
    decreases to - from,
{
    if from < to && is_blank(text[from]) {
        lemma_trim_start_bounds(text, from + 1, to);
    }
}

/// `trim_end` stays within its range.
pub proof fn lemma_trim_end_bounds(text: Seq<char>, from: int, to: int)
    requires
        from <= to,
    ensures
        from <= trim_end(text, from, to) <= to,
    decreases to - from,
{
    if from < to && is_blank(text[to - 1]) {
        lemma_trim_end_bounds(text, from, to - 1);
    }
}

/// Trimming a part of a text is trimming it as a text of its own.
pub proof fn lemma_trim_of_part(text: Seq<char>, from: int, to: int)
    requires
        0 <= from <= to <= text.len(),
    ensures
        trimmed(text.subrange(from, to)) == text.subrange(
            trim_start(text, from, to),
            trim_end(text, trim_start(text, from, to), to),
        ),
{
    lemma_trim_start_shift(text, from, to, from);
    let start = trim_start(text, from, to);
    lemma_trim_start_bounds(text, from, to);
    lemma_trim_end_shift(text, from, start, to);
    lemma_trim_end_bounds(text, start, to);
}

proof fn lemma_trim_start_shift(text: Seq<char>, from: int, to: int, at: int)
    requires
        0 <= from <= at <= to <= text.len(),
    ensures
        trim_start(text.subrange(from, to), at - from, to - from) == trim_start(text, at, to)
            - from,
    decreases to - at,
{
    if at < to && is_blank(text[at]) {
        lemma_trim_start_shift(text, from, to, at + 1);
    }
}

proof fn lemma_trim_end_shift(text: Seq<char>, from: int, at: int, to: int)
    requires
        0 <= from <= at <= to <= text.len(),
    ensures
        forall|end: int|
            at <= end <= to ==> #[trigger] trim_end(
                text.subrange(from, to),
                at - from,
                end - from,
            ) == trim_end(text, at, end) - from,
{
    assert forall|end: int| at <= end <= to implies #[trigger] trim_end(
        text.subrange(from, to),
        at - from,
        end - from,
    ) == trim_end(text, at, end) - from by {
        lemma_trim_end_shift_one(text, from, at, to, end);
    }
}

proof fn lemma_trim_end_shift_one(text: Seq<char>, from: int, at: int, to: int, end: int)
    requires
        0 <= from <= at <= end <= to <= text.len(),
    ensures
        trim_end(text.subrange(from, to), at - from, end - from) == trim_end(text, at, end) - from,
    decreases end - at,
{
    if at < end && is_blank(text[end - 1]) {
        lemma_trim_end_shift_one(text, from, at, to, end - 1);
    }
}

/// The range of `chars[from..to]` that is left when the white space at its
/// two ends is taken away.
pub(crate) fn trim_span(chars: &Vec<char>, from: usize, to: usize) -> (span: (usize, usize))
    requires
        from <= to <= chars@.len(),
    ensures
        span.0 == trim_start(chars@, from as int, to as int),
        span.1 == trim_end(chars@, span.0 as int, to as int),
        from <= span.0 <= span.1 <= to,
        chars@.subrange(span.0 as int, span.1 as int) == trimmed(
            chars@.subrange(from as int, to as int),
        ),
{
    let mut start: usize = from;
    while start < to && is_whitespace(chars[start])
        invariant
            from <= start <= to <= chars@.len(),
            trim_start(chars@, from as int, to as int) == trim_start(
                chars@,
                start as int,
                to as int,
            ),
        decreases to - start,
    {
        start += 1;
    }
    let mut end: usize = to;
    while start < end && is_whitespace(chars[end - 1])
        invariant
            start <= end <= to <= chars@.len(),
            trim_end(chars@, start as int, to as int) == trim_end(chars@, start as int, end as int),
        decreases end - start,
    {
        end -= 1;
    }
    proof {
        lemma_trim_of_part(chars@, from as int, to as int);
    }
    (start, end)
}

/// Index of the first line feed of `text` at or after `from`, or the length of
/// `text` if there is none.
pub open spec fn next_newline(text: Seq<char>, from: int) -> int
    decreases text.len() - from,
{
    if from < 0 || from >= text.len() {
        text.len() as int
    } else if text[from] == '\n' {
        from
    } else {
        next_newline(text, from + 1)
    }
}

/// The lines of `text[from..]` as ranges of `text`, the way `str::lines`
/// cuts them: a line ends at a line feed, which is left out together with a
/// carriage return just before it, and a last line need not end with one.
pub open spec fn line_spans(text: Seq<char>, from: int) -> Seq<(int, int)>
    decreases text.len() - from,
    via line_spans_decreases
{
    if from < 0 || from >= text.len() {
        Seq::empty()
    } else {
        let stop = next_newline(text, from);
        if stop >= text.len() {
            seq![(from, text.len() as int)]
        } else if stop > from && text[stop - 1] == '\r' {
            seq![(from, stop - 1)] + line_spans(text, stop + 1)
        } else {
            seq![(from, stop)] + line_spans(text, stop + 1)
        }
    }
}

#[via_fn]
proof fn line_spans_decreases(text: Seq<char>, from: int) {
    if 0 <= from < text.len() {
        lemma_next_newline(text, from);
    }
}

/// The lines of `text`.
pub open spec fn lines_of(text: Seq<char>) -> Seq<Seq<char>> {
    line_spans(text, 0).map_values(|span: (int, int)| text.subrange(span.0, span.1))
}

/// The ranges of a list, as pairs of integers.
pub open spec fn span_views(spans: Seq<(usize, usize)>) -> Seq<(int, int)> {
    spans.map_values(|span: (usize, usize)| (span.0 as int, span.1 as int))
}

/// `next_newline` stays within the text and stops at a line feed.
pub proof fn lemma_next_newline(text: Seq<char>, from: int)
    requires
        0 <= from <= text.len(),
    ensures
        from <= next_newline(text, from) <= text.len(),
        next_newline(text, from) < text.len() ==> text[next_newline(text, from)] == '\n',
        forall|i: int| from <= i < next_newline(text, from) ==> text[i] != '\n',
    decreases text.len() - from,
{
    if from < text.len() && text[from] != '\n' {
        lemma_next_newline(text, from + 1);
    }
}

/// The lines of `chars`, as ranges.
pub fn split_lines(chars: &Vec<char>) -> (spans: Vec<(usize, usize)>)
    ensures
        span_views(spans@) == line_spans(chars@, 0),
        forall|i: int|
            0 <= i < spans@.len() ==> (#[trigger] spans@[i]).0 <= spans@[i].1 <= chars@.len(),
{
    let n = chars.len();
    let mut spans: Vec<(usize, usize)> = Vec::new();
    let mut from: usize = 0;
    while from < n
        invariant
            from <= n,
            n == chars@.len(),
            line_spans(chars@, 0) == span_views(spans@) + line_spans(chars@, from as int),
            forall|i: int|
                0 <= i < spans@.len() ==> (#[trigger] spans@[i]).0 <= spans@[i].1 <= chars@.len(),
        decreases n - from,
    {
        let mut stop: usize = from;
        while stop < n && chars[stop] != '\n'
            invariant
                from <= stop <= n,
                n == chars@.len(),
                next_newline(chars@, from as int) == next_newline(chars@, stop as int),
            decreases n - stop,
        {
            stop += 1;
        }
        if stop >= n {
            spans.push((from, n));
            from = n;
        } else if stop > from && chars[stop - 1] == '\r' {
            spans.push((from, stop - 1));
            from = stop + 1;
        } else {
            spans.push((from, stop));
            from = stop + 1;
        }
    }
    spans
}

/// The lines joined by single line feeds, with none after the last.
pub open spec fn join_lines(lines: Seq<Seq<char>>) -> Seq<char>
    decreases lines.len(),
{
    if lines.len() == 0 {
        Seq::empty()
    } else if lines.len() == 1 {
        lines[0]
    } else {
        join_lines(lines.drop_last()) + seq!['\n'] + lines.last()
    }
}

/// A text of white space alone has nothing left when it is trimmed.
pub proof fn lemma_blank_text_trims_to_nothing(text: Seq<char>, from: int)
    requires
        0 <= from <= text.len(),
        all_blank(text),
    ensures
        trim_start(text, from, text.len() as int) == text.len(),
        from == 0 ==> trimmed(text).len() == 0,
    decreases text.len() - from,
{
    if from < text.len() {
        lemma_blank_text_trims_to_nothing(text, from + 1);
    }
}

/// A line that holds more than white space is seen in the joined lines:
/// they hold more than white space too.
pub proof fn lemma_join_keeps_lines(lines: Seq<Seq<char>>, at: int)
    requires
        0 <= at < lines.len(),
        !all_blank(lines[at]),
    ensures
        !all_blank(join_lines(lines)),
    decreases lines.len(),
{
    let joined = join_lines(lines);
    if lines.len() > 1 {
        let before = join_lines(lines.drop_last());
        if at == lines.len() - 1 {
            let c = choose|c: int| 0 <= c < lines[at].len() && !is_blank(#[trigger] lines[at][c]);
            assert(joined[before.len() + 1 + c] == lines[at][c]);
        } else {
            assert(lines.drop_last()[at] == lines[at]);
            lemma_join_keeps_lines(lines.drop_last(), at);
            let c = choose|c: int| 0 <= c < before.len() && !is_blank(#[trigger] before[c]);
            assert(joined[c] == before[c]);
        }
    }
}

/// The lines `spans[from..to]` of `chars`, joined by line feeds.
pub(crate) fn join_spans(chars: &Vec<char>, spans: &Vec<(usize, usize)>, from: usize, to: usize) -> (joined:
    Vec<char>)
    requires
        from <= to <= spans@.len(),
        forall|i: int|
            0 <= i < spans@.len() ==> (#[trigger] spans@[i]).0 <= spans@[i].1 <= chars@.len(),
    ensures
        joined@ == join_lines(
            span_views(spans@).map_values(|span: (int, int)| chars@.subrange(span.0, span.1)).subrange(
                from as int,
                to as int,
            ),
        ),
{
    let ghost lines = span_views(spans@).map_values(
        |span: (int, int)| chars@.subrange(span.0, span.1),
    );
    let mut joined: Vec<char> = Vec::new();
    let mut i: usize = from;
    while i < to
        invariant
            from <= i <= to <= spans@.len(),
            lines == span_views(spans@).map_values(
                |span: (int, int)| chars@.subrange(span.0, span.1),
            ),
            forall|k: int|
                0 <= k < spans@.len() ==> (#[trigger] spans@[k]).0 <= spans@[k].1 <= chars@.len(),
            joined@ == join_lines(lines.subrange(from as int, i as int)),
        decreases to - i,
    {
        let ghost before = joined@;
        if i > from {
            joined.push('\n');
        }
        let span = spans[i];
        let mut k: usize = span.0;
        while k < span.1
            invariant
                span.0 <= k <= span.1 <= chars@.len(),
                joined@ == before + (if i > from {
                    seq!['\n']
                } else {
                    Seq::<char>::empty()
                }) + chars@.subrange(span.0 as int, k as int),
            decreases span.1 - k,
        {
            joined.push(chars[k]);
            k += 1;
        }
        proof {
            let upto = lines.subrange(from as int, i + 1);
            assert(upto.drop_last() =~= lines.subrange(from as int, i as int));
        }
        i += 1;
    }
    joined
}

} // verus!
