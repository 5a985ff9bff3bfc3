//! Where a text is best cut: after a blank line, a line feed, the end of a
//! statement or block, or a space.

use vstd::prelude::*;

verus! {

/// Index of the first `c` in `text[from..to]`, or `to` if there is none.
pub open spec fn find_char(text: Seq<char>, c: char, from: int, to: int) -> int
    decreases to - from,
{
    if from >= to {
        to
    } else if text[from] == c {
        from
    } else {
        find_char(text, c, from + 1, to)
    }
}

/// Index of the first of two line feeds in a row that both lie in
/// `text[from..to]`, or `to` if there are none.
pub open spec fn find_blank_line(text: Seq<char>, from: int, to: int) -> int
    decreases to - from,
{
    if from + 1 >= to {
        to
    } else if text[from] == '\n' && text[from + 1] == '\n' {
        from
    } else {
        find_blank_line(text, from + 1, to)
    }
}

/// `find_char` answers within its range, the end included.
pub proof fn lemma_find_char_bounds(text: Seq<char>, c: char, from: int, to: int)
    requires
        from <= to,
    ensures
        from <= find_char(text, c, from, to) <= to,
    decreases to - from,
{
    if from < to && text[from] != c {
        lemma_find_char_bounds(text, c, from + 1, to);
    }
}

/// `find_blank_line` answers `to`, or an index with room for two characters.
pub proof fn lemma_find_blank_line_bounds(text: Seq<char>, from: int, to: int)
    requires
        from <= to,
    ensures
        find_blank_line(text, from, to) == to || from <= find_blank_line(text, from, to) < to - 1,
    decreases to - from,
{
    if from + 1 < to && !(text[from] == '\n' && text[from + 1] == '\n') {
        lemma_find_blank_line_bounds(text, from + 1, to);
    }
}

/// Where to cut within `text[from..to]`: just after the first blank line;
/// failing that, after the first line feed; failing that, after the first `;`,
/// else the first `}`, else the first `{`; failing that, after the first
/// space; and at `to` when the range holds none of these.
pub open spec fn boundary_in(text: Seq<char>, from: int, to: int) -> int {
    if find_blank_line(text, from, to) < to {
        find_blank_line(text, from, to) + 2
    } else if find_char(text, '\n', from, to) < to {
        find_char(text, '\n', from, to) + 1
    } else if find_char(text, ';', from, to) < to {
        find_char(text, ';', from, to) + 1
    } else if find_char(text, '}', from, to) < to {
        find_char(text, '}', from, to) + 1
    } else if find_char(text, '{', from, to) < to {
        find_char(text, '{', from, to) + 1
    } else if find_char(text, ' ', from, to) < to {
        find_char(text, ' ', from, to) + 1
    } else {
        to
    }
}

/// The smaller of two integers.
pub open spec fn least(a: int, b: int) -> int {
    if a <= b {
        a
    } else {
        b
    }
}

/// The larger of two integers.
pub open spec fn greatest(a: int, b: int) -> int {
    if a >= b {
        a
    } else {
        b
    }
}

/// A cut lies after the start of a range that is not empty, and never past
/// its end.
pub proof fn lemma_boundary_in_bounds(text: Seq<char>, from: int, to: int)
    requires
        from <= to,
    ensures
        from <= boundary_in(text, from, to) <= to,
        from < to ==> from < boundary_in(text, from, to),
{
    lemma_find_blank_line_bounds(text, from, to);
    lemma_find_char_bounds(text, '\n', from, to);
    lemma_find_char_bounds(text, ';', from, to);
    lemma_find_char_bounds(text, '}', from, to);
    lemma_find_char_bounds(text, '{', from, to);
    lemma_find_char_bounds(text, ' ', from, to);
}

/// Index of the first `c` in `chars[from..to]`, or `to`.
fn locate_char(chars: &Vec<char>, c: char, from: usize, to: usize) -> (at: usize)
    requires
        from <= to <= chars@.len(),
    ensures
        at == find_char(chars@, c, from as int, to as int),
        from <= at <= to,
{
    let mut at: usize = from;
    while at < to && chars[at] != c
        invariant
            from <= at <= to <= chars@.len(),
            find_char(chars@, c, from as int, to as int) == find_char(
                chars@,
                c,
                at as int,
                to as int,
            ),
        decreases to - at,
    {
        at += 1;
    }
    at
}

/// Index of the first blank line in `chars[from..to]`, or `to`.
fn locate_blank_line(chars: &Vec<char>, from: usize, to: usize) -> (at: usize)
    requires
        from <= to <= chars@.len(),
    ensures
        at == find_blank_line(chars@, from as int, to as int),
        at == to || from <= at < to - 1,
{
    if to - from < 2 {
        return to;
    }
    let last = to - 1;
    let mut at: usize = from;
    while at < last && !(chars[at] == '\n' && chars[at + 1] == '\n')
        invariant
            from <= at <= last,
            last + 1 == to,
            to <= chars@.len(),
            find_blank_line(chars@, from as int, to as int) == find_blank_line(
                chars@,
                at as int,
                to as int,
            ),
        decreases last - at,
    {
        at += 1;
    }
    if at >= last {
        to
    } else {
        at
    }
}

/// Where to cut within `chars[from..to]`, as an index.
pub(crate) fn boundary_between(chars: &Vec<char>, from: usize, to: usize) -> (cut: usize)
    requires
        from <= to <= chars@.len(),
    ensures
        cut == boundary_in(chars@, from as int, to as int),
        from <= cut <= to,
        from < to ==> from < cut,
{
    proof {
        lemma_boundary_in_bounds(chars@, from as int, to as int);
    }
    let blank = locate_blank_line(chars, from, to);
    if blank < to {
        return blank + 2;
    }
    let newline = locate_char(chars, '\n', from, to);
    if newline < to {
        return newline + 1;
    }
    let semicolon = locate_char(chars, ';', from, to);
    if semicolon < to {
        return semicolon + 1;
    }
    let closing = locate_char(chars, '}', from, to);
    if closing < to {
        return closing + 1;
    }
    let opening = locate_char(chars, '{', from, to);
    if opening < to {
        return opening + 1;
    }
    let space = locate_char(chars, ' ', from, to);
    if space < to {
        return space + 1;
    }
    to
}

} // verus!
