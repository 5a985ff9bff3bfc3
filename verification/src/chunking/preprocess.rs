//! Normalized text of a syntax node: comments left out, runs of spaces
//! collapsed, line feeds kept.

use vstd::prelude::*;
use vstd::utf8::{
    decode_utf8, encode_utf8, encode_utf8_decode_utf8, encode_utf8_valid_utf8, is_char_boundary,
    is_char_boundary_iff_not_is_continuation_byte, is_char_boundary_start_end_of_seq,
    valid_utf8_split,
};
use vstd::string::StringSliceAdditionalSpecFns;
use super::syntax::{
    has_named_child, sibling_after, siblings_from, subtree_end, NodeFacts, SyntaxTree,
};
use super::text::{chars_of, contains, contains_text, text_of};

verus! {

/// Whether the character at `at` stays when `text` is normalized: every
/// character does but a space that follows a space.
pub open spec fn is_kept(text: Seq<char>, at: int) -> bool {
    !(text[at] == ' ' && at > 0 && text[at - 1] == ' ')
}

/// `text` with every run of spaces collapsed into one space, a run that
/// begins the text too; line feeds and all other characters stay as they are.
pub open spec fn normalized(text: Seq<char>) -> Seq<char>
    decreases text.len(),
{
    if text.len() == 0 {
        Seq::empty()
    } else if is_kept(text, text.len() - 1) {
        normalized(text.drop_last()).push(text.last())
    } else {
        normalized(text.drop_last())
    }
}

/// Every character of `text` would stay if it were normalized.
pub open spec fn is_normal(text: Seq<char>) -> bool {
    forall|at: int| 0 <= at < text.len() ==> is_kept(text, at)
}

/// Where the last character of a text is kept, it is the last character of
/// the normalized text.
proof fn lemma_normalized_last(text: Seq<char>)
    requires
        text.len() > 0,
        is_kept(text, text.len() - 1),
    ensures
        normalized(text).len() > 0,
        normalized(text).last() == text.last(),
{
}

/// Normalized text has nothing left to drop.
pub proof fn lemma_normalized_is_normal(text: Seq<char>)
    ensures
        is_normal(normalized(text)),
    decreases text.len(),
{
    if text.len() > 0 {
        let before = text.drop_last();
        lemma_normalized_is_normal(before);
        let last = text.len() - 1;
        if is_kept(text, last) {
            let out = normalized(text);
            assert forall|at: int| 0 <= at < out.len() implies is_kept(out, at) by {
                if at < out.len() - 1 {
                    assert(is_kept(normalized(before), at));
                } else if text[last] == ' ' && last > 0 {
                    lemma_normalized_last(before);
                }
            }
        }
    }
}

/// Text with nothing to drop is its own normalized text.
pub proof fn lemma_normal_is_fixed(text: Seq<char>)
    requires
        is_normal(text),
    ensures
        normalized(text) == text,
    decreases text.len(),
{
    if text.len() > 0 {
        let before = text.drop_last();
        assert forall|at: int| 0 <= at < before.len() implies is_kept(before, at) by {
            assert(is_kept(text, at));
        }
        lemma_normal_is_fixed(before);
    }
}

/// Normalizing twice gives what normalizing once gives.
pub proof fn lemma_normalize_idempotent(text: Seq<char>)
    ensures
        normalized(normalized(text)) == normalized(text),
{
    lemma_normalized_is_normal(text);
    lemma_normal_is_fixed(normalized(text));
}

/// Appends the normalized text of `text` to `out`.
pub fn normalize_into(out: &mut Vec<char>, text: &str)
    ensures
        final(out)@ == old(out)@ + normalized(text@),
{
    let mut after_space = false;
    let ghost base = out@;
    for c in it: text.chars()
        invariant
            it.seq() == text@,
            after_space == (it.index() > 0 && text@[it.index() - 1] == ' '),
            out@ == base + normalized(text@.take(it.index() as int)),
    {
        proof {
            let upto = text@.take(it.index() + 1);
            assert(upto.drop_last() =~= text@.take(it.index() as int));
        }
        if !(c == ' ' && after_space) {
            out.push(c);
        }
        after_space = c == ' ';
    }
    assert(text@.take(text@.len() as int) =~= text@);
}

/// Normalizes white space: each run of spaces becomes one space, and every
/// line feed stays.
pub fn normalize_whitespace(text: &str) -> (result: String)
    ensures
        result@ == normalized(text@),
{
    let mut out: Vec<char> = Vec::new();
    normalize_into(&mut out, text);
    text_of(&out, 0, out.len())
}

/// The text that the bytes `start..end` of the encoded `source` hold, and
/// no text where that range does not lie within the bytes or does not begin
/// and end between two characters.
pub open spec fn text_slice(source: Seq<char>, start: int, end: int) -> Seq<char> {
    let bytes = encode_utf8(source);
    if 0 <= start <= end <= bytes.len() && is_char_boundary(bytes, start) && is_char_boundary(
        bytes,
        end,
    ) {
        decode_utf8(bytes.subrange(start, end))
    } else {
        Seq::empty()
    }
}

/// A position between two characters of a text is one of its beginning too,
/// up to any later such position.
proof fn lemma_boundary_of_prefix(bytes: Seq<u8>, start: int, end: int)
    requires
        vstd::utf8::valid_utf8(bytes),
        0 <= start <= end <= bytes.len(),
        is_char_boundary(bytes, start),
        is_char_boundary(bytes, end),
    ensures
        vstd::utf8::valid_utf8(bytes.subrange(0, end)),
        is_char_boundary(bytes.subrange(0, end), start),
{
    let head = bytes.subrange(0, end);
    valid_utf8_split(bytes, end);
    if start == end {
        is_char_boundary_start_end_of_seq(head);
    } else {
        is_char_boundary_iff_not_is_continuation_byte(bytes, start);
        is_char_boundary_iff_not_is_continuation_byte(head, start);
    }
}

/// The text of the bytes `start_byte..end_byte` of `source`; the empty text
/// where the range does not fit the source.
pub fn node_text(source: &str, start_byte: usize, end_byte: usize) -> (text: &str)
    ensures
        text@ == text_slice(source@, start_byte as int, end_byte as int),
{
    proof {
        reveal_strlit("");
        encode_utf8_valid_utf8(source@);
    }
    let size = source.as_bytes().len();
    if start_byte <= end_byte && end_byte <= size && source.is_char_boundary(start_byte)
        && source.is_char_boundary(end_byte) {
        proof {
            lemma_boundary_of_prefix(source.spec_bytes(), start_byte as int, end_byte as int);
        }
        let (head, _) = source.split_at(end_byte);
        let (_, text) = head.split_at(start_byte);
        proof {
            assert(text.spec_bytes() =~= source.spec_bytes().subrange(
                start_byte as int,
                end_byte as int,
            ));
            encode_utf8_decode_utf8(text@);
        }
        text
    } else {
        ""
    }
}

/// A node of this kind is a comment: its kind label holds the word
/// `comment`.
pub open spec fn is_comment_kind(kind: Seq<char>) -> bool {
    contains_text(kind, "comment"@)
}

/// The normalized text of the nodes from `from` up to `end`, read in
/// document order: a comment gives nothing, and nothing below it is read; a
/// node without named children gives the normalized text of its range of the
/// source, and nothing below it is read; any other node gives what the nodes
/// below it give.
pub open spec fn preprocess_from(
    nodes: Seq<NodeFacts>,
    source: Seq<char>,
    from: int,
    end: int,
) -> Seq<char>
    decreases end - from,
{
    if from < 0 || from >= end || from >= nodes.len() {
        Seq::empty()
    } else if is_comment_kind(nodes[from].kind) {
        preprocess_from(nodes, source, sibling_after(nodes, from, end), end)
    } else if !has_named_child(nodes, from) {
        normalized(text_slice(source, nodes[from].start_byte as int, nodes[from].end_byte as int))
            + preprocess_from(nodes, source, sibling_after(nodes, from, end), end)
    } else {
        preprocess_from(nodes, source, from + 1, end)
    }
}

/// The normalized text of the node at `at`.
pub open spec fn preprocessed(nodes: Seq<NodeFacts>, source: Seq<char>, at: int) -> Seq<char> {
    preprocess_from(nodes, source, at, subtree_end(nodes, at))
}

/// A comment has no normalized text, whatever lies below it.
pub proof fn lemma_comment_gives_nothing(nodes: Seq<NodeFacts>, source: Seq<char>, at: int)
    requires
        0 <= at < nodes.len(),
        is_comment_kind(nodes[at].kind),
    ensures
        preprocessed(nodes, source, at) == Seq::<char>::empty(),
{
    let end = subtree_end(nodes, at);
    assert(preprocess_from(nodes, source, end, end) == Seq::<char>::empty());
}

/// Nodes that are all comments give no text between them.
pub proof fn lemma_comments_give_nothing(
    nodes: Seq<NodeFacts>,
    source: Seq<char>,
    from: int,
    end: int,
)
    requires
        forall|k: int|
            0 <= k < siblings_from(nodes, from, end).len() ==> is_comment_kind(
                nodes[#[trigger] siblings_from(nodes, from, end)[k]].kind,
            ),
    ensures
        preprocess_from(nodes, source, from, end) == Seq::<char>::empty(),
    decreases end - from,
{
    if !(from < 0 || from >= end || from >= nodes.len()) {
        let all = siblings_from(nodes, from, end);
        let next = sibling_after(nodes, from, end);
        let rest = siblings_from(nodes, next, end);
        assert(all[0] == from);
        assert forall|k: int| 0 <= k < rest.len() implies is_comment_kind(
            nodes[#[trigger] rest[k]].kind,
        ) by {
            assert(all[k + 1] == rest[k]);
        }
        lemma_comments_give_nothing(nodes, source, next, end);
    }
}

/// A file that holds comments and nothing else has no normalized text: the
/// first node of its tree has a named child, and all its children are
/// comments.
pub proof fn lemma_file_of_comments_is_empty(nodes: Seq<NodeFacts>, source: Seq<char>)
    requires
        nodes.len() > 0,
        !is_comment_kind(nodes[0].kind),
        has_named_child(nodes, 0),
        forall|k: int|
            0 <= k < siblings_from(nodes, 1, subtree_end(nodes, 0)).len() ==> is_comment_kind(
                nodes[#[trigger] siblings_from(nodes, 1, subtree_end(nodes, 0))[k]].kind,
            ),
    ensures
        preprocessed(nodes, source, 0) == Seq::<char>::empty(),
{
    lemma_comments_give_nothing(nodes, source, 1, subtree_end(nodes, 0));
}

/// Whether `kind` is the kind of a comment.
pub fn is_comment(kind: &str) -> (comment: bool)
    ensures
        comment == is_comment_kind(kind@),
{
    let label = chars_of(kind);
    let word = chars_of("comment");
    contains(&label, &word)
}

/// The normalized text of the node at index `node` of `tree`, whose byte
/// offsets are offsets into `source`. A node that the tree does not have has
/// no text.
pub fn preprocess_code(tree: &SyntaxTree, node: usize, source: &str) -> (content: String)
    ensures
        content@ == preprocessed(tree@, source@, node as int),
{
    let mut out: Vec<char> = Vec::new();
    if node < tree.len() {
        let end = tree.subtree_end(node);
        let mut at: usize = node;
        while at < end
            invariant
                node <= at <= end <= tree@.len(),
                preprocessed(tree@, source@, node as int) == out@ + preprocess_from(
                    tree@,
                    source@,
                    at as int,
                    end as int,
                ),
            decreases end - at,
        {
            let current = tree.node(at);
            let after = tree.subtree_end(at);
            let next = if after < end {
                after
            } else {
                end
            };
            if is_comment(current.kind.as_str()) {
                at = next;
            } else if !tree.has_named_child(at) {
                let text = node_text(source, current.start_byte, current.end_byte);
                normalize_into(&mut out, text);
                at = next;
            } else {
                at = at + 1;
            }
        }
    }
    text_of(&out, 0, out.len())
}

} // verus!
