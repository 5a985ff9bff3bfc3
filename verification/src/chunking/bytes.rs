//! The size of a text in bytes, and where each of its characters begins when
//! the text is encoded.

use vstd::prelude::*;
use vstd::string::StringSliceAdditionalSpecFns;
use vstd::utf8::{char_is_scalar, encode_scalar, encode_utf8};
use super::text::chars_of;

verus! {

/// Bytes that the character takes when it is encoded: from 1 to 4.
pub open spec fn char_width(c: char) -> int {
    let code = c as u32;
    if code <= 0x7f {
        1
    } else if code <= 0x7ff {
        2
    } else if code <= 0xffff {
        3
    } else {
        4
    }
}

/// Bytes that the text takes when it is encoded.
pub open spec fn byte_size(text: Seq<char>) -> nat {
    encode_utf8(text).len()
}

/// Bytes that the first `index` characters of the text take: the offset in
/// bytes at which the character at `index` begins.
pub open spec fn offset_of(text: Seq<char>, index: int) -> int {
    byte_size(text.take(index)) as int
}

/// The encoding of a character has as many bytes as `char_width` says.
pub proof fn lemma_width_of_char(c: char)
    ensures
        encode_scalar(c as u32).len() == char_width(c),
        1 <= char_width(c) <= 4,
{
    char_is_scalar(c);
}

/// The encoding of two texts put together is their encodings put together.
pub proof fn lemma_encode_concat(left: Seq<char>, right: Seq<char>)
    ensures
        encode_utf8(left + right) == encode_utf8(left) + encode_utf8(right),
    decreases left.len(),
{
    if left.len() > 0 {
        assert((left + right).drop_first() =~= left.drop_first() + right);
        lemma_encode_concat(left.drop_first(), right);
    }
}

/// The sizes of two texts add up when they are put together.
pub proof fn lemma_byte_size_concat(left: Seq<char>, right: Seq<char>)
    ensures
        byte_size(left + right) == byte_size(left) + byte_size(right),
{
    lemma_encode_concat(left, right);
}

/// A text of one character has the size of that character.
pub proof fn lemma_byte_size_of_one(c: char)
    ensures
        byte_size(seq![c]) == char_width(c),
{
    lemma_width_of_char(c);
    assert(seq![c].drop_first() =~= Seq::<char>::empty());
    assert(encode_utf8(Seq::<char>::empty()) =~= Seq::<u8>::empty());
}

/// Each character begins where the one before it ends.
pub proof fn lemma_offset_step(text: Seq<char>, index: int)
    requires
        0 <= index < text.len(),
    ensures
        offset_of(text, index + 1) == offset_of(text, index) + char_width(text[index]),
{
    assert(text.take(index + 1) =~= text.take(index) + seq![text[index]]);
    lemma_byte_size_concat(text.take(index), seq![text[index]]);
    lemma_byte_size_of_one(text[index]);
}

/// The bytes between two characters are the size of the text between them,
/// and a later character begins after an earlier one.
pub proof fn lemma_offset_between(text: Seq<char>, from: int, to: int)
    requires
        0 <= from <= to <= text.len(),
    ensures
        offset_of(text, to) - offset_of(text, from) == byte_size(text.subrange(from, to)),
        to - from <= offset_of(text, to) - offset_of(text, from) <= 4 * (to - from),
    decreases to - from,
{
    assert(text.take(to) =~= text.take(from) + text.subrange(from, to));
    lemma_byte_size_concat(text.take(from), text.subrange(from, to));
    if from < to {
        lemma_offset_between(text, from, to - 1);
        lemma_offset_step(text, to - 1);
        lemma_width_of_char(text[to - 1]);
    }
}

/// The first character begins at 0, and the text ends at its size.
pub proof fn lemma_offset_ends(text: Seq<char>)
    ensures
        offset_of(text, 0) == 0,
        offset_of(text, text.len() as int) == byte_size(text),
{
    assert(text.take(text.len() as int) =~= text);
}

/// Bytes that `c` takes when it is encoded.
pub fn width_of(c: char) -> (width: usize)
    ensures
        width == char_width(c),
{
    let code: u32 = c as u32;
    if code <= 0x7f {
        1
    } else if code <= 0x7ff {
        2
    } else if code <= 0xffff {
        3
    } else {
        4
    }
}

/// Bytes that `text` takes.
pub fn size_of(text: &str) -> (size: usize)
    ensures
        size == byte_size(text@),
{
    text.as_bytes().len()
}

/// The offsets are those at which the characters of the text begin, with
/// the size of the text as the last.
pub open spec fn are_offsets(offsets: Seq<usize>, text: Seq<char>) -> bool {
    &&& offsets.len() == text.len() + 1
    &&& forall|i: int| 0 <= i <= text.len() ==> #[trigger] offsets[i] == offset_of(text, i)
}

/// The characters of `text`, and the offsets in bytes at which they begin,
/// with the size of the text as one more offset. The size is taken first: it
/// bounds every offset.
pub fn measure(text: &str) -> (measured: (Vec<char>, Vec<usize>))
    ensures
        measured.0@ == text@,
        are_offsets(measured.1@, text@),
{
    let chars = chars_of(text);
    let size = size_of(text);
    let mut offsets: Vec<usize> = Vec::new();
    let mut total: usize = 0;
    let mut at: usize = 0;
    proof {
        lemma_offset_ends(chars@);
    }
    while at < chars.len()
        invariant
            at <= chars@.len(),
            size == byte_size(chars@),
            total == offset_of(chars@, at as int),
            offsets@.len() == at,
            forall|i: int| 0 <= i < at ==> #[trigger] offsets@[i] == offset_of(chars@, i),
        decreases chars@.len() - at,
    {
        proof {
            lemma_offset_step(chars@, at as int);
            lemma_offset_between(chars@, at + 1, chars@.len() as int);
            lemma_offset_ends(chars@);
        }
        offsets.push(total);
        total = total + width_of(chars[at]);
        at += 1;
    }
    offsets.push(total);
    (chars, offsets)
}

} // verus!
