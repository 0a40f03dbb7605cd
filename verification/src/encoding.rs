//! The list encoding: a sequence of strings kept in one value.
//!
//! Each item is written on a line of its own. A newline inside an item is
//! written as a backslash followed by the letter `n`, so a newline in the
//! stored value always ends an item.

use crate::text::{chars_of, string_of};
use vstd::prelude::*;

verus! {

/// `text` with each newline replaced by a backslash and the letter `n`.
pub open spec fn escaped(text: Seq<char>) -> Seq<char>
    decreases text.len(),
{
    if text.len() == 0 {
        text
    } else if text[0] == '\n' {
        seq!['\\', 'n'] + escaped(text.skip(1))
    } else {
        seq![text[0]] + escaped(text.skip(1))
    }
}

/// `text` with each backslash that is followed by the letter `n` replaced,
/// together with that letter, by a newline. The text is read from the left,
/// and a character that was replaced is not read again.
pub open spec fn unescaped(text: Seq<char>) -> Seq<char>
    decreases text.len(),
{
    if text.len() == 0 {
        text
    } else if text.len() >= 2 && text[0] == '\\' && text[1] == 'n' {
        seq!['\n'] + unescaped(text.skip(2))
    } else {
        seq![text[0]] + unescaped(text.skip(1))
    }
}

/// What one item adds to a stored list: the escaped item and a newline.
pub open spec fn encoded_item(item: Seq<char>) -> Seq<char> {
    escaped(item).push('\n')
}

/// The stored value of a list: the encoded items one after another.
pub open spec fn encoded_list(items: Seq<Seq<char>>) -> Seq<char>
    decreases items.len(),
{
    if items.len() == 0 {
        Seq::empty()
    } else {
        encoded_list(items.drop_last()) + encoded_item(items.last())
    }
}

/// `text` without its last character, if that is a newline.
pub open spec fn without_final_newline(text: Seq<char>) -> Seq<char> {
    if text.len() > 0 && text.last() == '\n' {
        text.drop_last()
    } else {
        text
    }
}

/// `text` cut at each newline. The newlines belong to no line, and there is
/// one line more than there are newlines: the empty text is one empty line.
pub open spec fn split_lines(text: Seq<char>) -> Seq<Seq<char>>
    decreases text.len(),
{
    if text.len() == 0 {
        seq![Seq::empty()]
    } else {
        let before = split_lines(text.drop_last());
        if text.last() == '\n' {
            before.push(Seq::empty())
        } else {
            before.drop_last().push(before.last().push(text.last()))
        }
    }
}

/// The items of a stored list: one final newline is taken off the value, the
/// rest is cut into lines, and each line is unescaped.
pub open spec fn decoded_list(contents: Seq<char>) -> Seq<Seq<char>> {
    split_lines(without_final_newline(contents)).map_values(|line: Seq<char>| unescaped(line))
}

/// Whether a backslash in `text` is directly followed by the letter `n`.
pub open spec fn has_escape_sequence(text: Seq<char>) -> bool {
    exists|i: int| 0 <= i && i + 1 < text.len() && text[i] == '\\' && #[trigger] text[i + 1] == 'n'
}

/// Whether none of `items` holds a backslash directly followed by `n`.
pub open spec fn free_of_escape_sequences(items: Seq<Seq<char>>) -> bool {
    forall|i: int| 0 <= i < items.len() ==> !has_escape_sequence(#[trigger] items[i])
}

fn escape_chars(text: &Vec<char>) -> (out: Vec<char>)
    ensures
        out@ == escaped(text@),
{
    let mut out: Vec<char> = Vec::new();
    let mut i: usize = 0;
    assert(out@ + escaped(text@.skip(0)) =~= escaped(text@)) by {
        assert(text@.skip(0) =~= text@);
    }
    while i < text.len()
        invariant
            i <= text.len(),
            escaped(text@) == out@ + escaped(text@.skip(i as int)),
        decreases text.len() - i,
    {
        let c = text[i];
        proof {
            assert(text@.skip(i as int).skip(1) =~= text@.skip(i + 1));
        }
        if c == '\n' {
            out.push('\\');
            out.push('n');
        } else {
            out.push(c);
        }
        i += 1;
    }
    out
}

fn unescape_chars(text: &Vec<char>) -> (out: Vec<char>)
    ensures
        out@ == unescaped(text@),
{
    let mut out: Vec<char> = Vec::new();
    let mut i: usize = 0;
    assert(out@ + unescaped(text@.skip(0)) =~= unescaped(text@)) by {
        assert(text@.skip(0) =~= text@);
    }
    while i < text.len()
        invariant
            i <= text.len(),
            unescaped(text@) == out@ + unescaped(text@.skip(i as int)),
        decreases text.len() - i,
    {
        if text[i] == '\\' && i + 1 < text.len() && text[i + 1] == 'n' {
            out.push('\n');
            proof {
                assert(text@.skip(i as int).skip(2) =~= text@.skip(i + 2));
            }
            i += 2;
        } else {
            out.push(text[i]);
            proof {
                assert(text@.skip(i as int).skip(1) =~= text@.skip(i + 1));
            }
            i += 1;
        }
    }
    out
}

/// Replaces each newline in `text` by a backslash and the letter `n`.
pub fn escape_newlines(text: &str) -> (out: String)
    ensures
        out@ == escaped(text@),
{
    let chars = chars_of(text);
    let out = escape_chars(&chars);
    string_of(&out)
}

/// Replaces each backslash that is followed by the letter `n`, together with
/// that letter, by a newline.
pub fn unescape_newlines(text: &str) -> (out: String)
    ensures
        out@ == unescaped(text@),
{
    let chars = chars_of(text);
    let out = unescape_chars(&chars);
    string_of(&out)
}

/// What appending `item` adds to a stored list: the item with its newlines
/// escaped, and a newline after it.
pub fn encode_item(item: &str) -> (line: String)
    ensures
        line@ == encoded_item(item@),
{
    let chars = chars_of(item);
    let mut out = escape_chars(&chars);
    out.push('\n');
    string_of(&out)
}

/// The items that the stored value `contents` holds.
pub fn decode_list(contents: &str) -> (items: Vec<String>)
    ensures
        items.deep_view() == decoded_list(contents@),
{
    let chars = chars_of(contents);
    let mut end: usize = chars.len();
    if end > 0 && chars[end - 1] == '\n' {
        end = end - 1;
    }
    let ghost body = chars@.take(end as int);
    assert(body == without_final_newline(contents@));
    let mut items: Vec<String> = Vec::new();
    let mut line: Vec<char> = Vec::new();
    let mut i: usize = 0;
    while i < end
        invariant
            i <= end <= chars.len(),
            body == chars@.take(end as int),
            split_lines(body.take(i as int)).len() == items.len() + 1,
            split_lines(body.take(i as int)).last() == line@,
            forall|k: int|
                0 <= k < items.len() ==> (#[trigger] items[k])@ == unescaped(
                    split_lines(body.take(i as int))[k],
                ),
        decreases end - i,
    {
        proof {
            assert(body.take(i + 1).drop_last() =~= body.take(i as int));
        }
        if chars[i] == '\n' {
            let done = unescape_chars(&line);
            items.push(string_of(&done));
            line = Vec::new();
        } else {
            line.push(chars[i]);
        }
        i += 1;
    }
    assert(body.take(end as int) =~= body);
    let done = unescape_chars(&line);
    items.push(string_of(&done));
    items
}

/// An escaped text holds no newline.
pub proof fn lemma_escaped_has_no_newline(text: Seq<char>)
    ensures
        !escaped(text).contains('\n'),
    decreases text.len(),
{
    if text.len() > 0 {
        lemma_escaped_has_no_newline(text.skip(1));
    }
}

/// Unescaping gives back every text that was escaped, unless the text holds
/// a backslash directly followed by the letter `n`.
pub proof fn lemma_unescape_inverts_escape(text: Seq<char>)
    requires
        !has_escape_sequence(text),
    ensures
        unescaped(escaped(text)) == text,
    decreases text.len(),
{
    if text.len() > 0 {
        let rest = text.skip(1);
        if has_escape_sequence(rest) {
            let i = choose|i: int|
                0 <= i && i + 1 < rest.len() && rest[i] == '\\' && #[trigger] rest[i + 1] == 'n';
            assert(text[i + 1] == '\\' && text[i + 1 + 1] == 'n');
        }
        lemma_unescape_inverts_escape(rest);
        if text[0] == '\n' {
            assert(escaped(text).skip(2) =~= escaped(rest));
        } else {
            if text[0] == '\\' && rest.len() > 0 {
                let first: int = 0;
                assert(text[first + 1] != 'n');
                assert(escaped(rest)[0] != 'n');
            }
            assert(escaped(text).skip(1) =~= escaped(rest));
        }
        assert(seq![text[0]] + rest =~= text);
    }
}

/// Cutting a text into lines gives at least one line.
pub proof fn lemma_split_lines_nonempty(text: Seq<char>)
    ensures
        split_lines(text).len() >= 1,
    decreases text.len(),
{
    if text.len() > 0 {
        lemma_split_lines_nonempty(text.drop_last());
    }
}

/// `lines` put together again, with one newline between each line and the
/// next.
pub open spec fn joined_lines(lines: Seq<Seq<char>>) -> Seq<char>
    decreases lines.len(),
{
    if lines.len() == 0 {
        Seq::empty()
    } else if lines.len() == 1 {
        lines[0]
    } else {
        joined_lines(lines.drop_last()) + seq!['\n'] + lines.last()
    }
}

/// The lines of a text hold no newline, and put together again with a
/// newline between them they are the text.
pub proof fn lemma_lines_join_to_text(text: Seq<char>)
    ensures
        forall|i: int|
            0 <= i < split_lines(text).len() ==> !(#[trigger] split_lines(text)[i]).contains(
                '\n',
            ),
        joined_lines(split_lines(text)) == text,
    decreases text.len(),
{
    if text.len() > 0 {
        let init = text.drop_last();
        let before = split_lines(init);
        let lines = split_lines(text);
        lemma_lines_join_to_text(init);
        lemma_split_lines_nonempty(init);
        assert(init.push(text.last()) =~= text);
        if text.last() == '\n' {
            assert(lines.drop_last() =~= before);
        } else if before.len() > 1 {
            assert(lines.drop_last() =~= before.drop_last());
            assert(joined_lines(lines) =~= joined_lines(before).push(text.last()));
        }
    }
}

/// A text without a newline has none in its last character, nor before it.
proof fn lemma_no_newline_in_parts(text: Seq<char>)
    requires
        !text.contains('\n'),
        text.len() > 0,
    ensures
        !text.drop_last().contains('\n'),
        text.last() != '\n',
{
    let init = text.drop_last();
    if init.contains('\n') {
        let i = choose|i: int| 0 <= i < init.len() && init[i] == '\n';
        assert(text[i] == '\n');
    }
    assert(text[text.len() - 1] == text.last());
}

/// A text without a newline is one line.
pub proof fn lemma_split_single_line(text: Seq<char>)
    requires
        !text.contains('\n'),
    ensures
        split_lines(text) == seq![text],
    decreases text.len(),
{
    if text.len() == 0 {
        assert(text =~= Seq::<char>::empty());
    } else {
        lemma_no_newline_in_parts(text);
        lemma_split_single_line(text.drop_last());
        assert(text.drop_last().push(text.last()) =~= text);
    }
}

/// A newline followed by a text without a newline adds that text as one
/// more line.
pub proof fn lemma_split_after_newline(head: Seq<char>, tail: Seq<char>)
    requires
        !tail.contains('\n'),
    ensures
        split_lines(head + seq!['\n'] + tail) == split_lines(head).push(tail),
    decreases tail.len(),
{
    let whole = head + seq!['\n'] + tail;
    if tail.len() == 0 {
        assert(whole.drop_last() =~= head);
        assert(tail =~= Seq::<char>::empty());
    } else {
        lemma_no_newline_in_parts(tail);
        lemma_split_after_newline(head, tail.drop_last());
        assert(whole.drop_last() =~= head + seq!['\n'] + tail.drop_last());
        assert(tail.drop_last().push(tail.last()) =~= tail);
    }
}

/// The stored value of a list that is not empty ends in a newline, and
/// without that newline its lines are the escaped items.
pub proof fn lemma_lines_of_encoded_list(items: Seq<Seq<char>>)
    requires
        items.len() > 0,
    ensures
        encoded_list(items).len() > 0,
        encoded_list(items).last() == '\n',
        split_lines(encoded_list(items).drop_last()) == items.map_values(
            |item: Seq<char>| escaped(item),
        ),
    decreases items.len(),
{
    let init = items.drop_last();
    let last = escaped(items.last());
    lemma_escaped_has_no_newline(items.last());
    assert(encoded_list(items).drop_last() =~= encoded_list(init) + last);
    if init.len() == 0 {
        lemma_split_single_line(last);
    } else {
        lemma_lines_of_encoded_list(init);
        let stored = encoded_list(init);
        assert(stored + last =~= stored.drop_last() + seq!['\n'] + last);
        lemma_split_after_newline(stored.drop_last(), last);
    }
}

/// Decoding gives back the items of every list that was encoded, if the
/// list is not empty and no item holds a backslash directly followed by the
/// letter `n`. Items may hold newlines.
pub proof fn lemma_decode_inverts_encode(items: Seq<Seq<char>>)
    requires
        items.len() > 0,
        free_of_escape_sequences(items),
    ensures
        decoded_list(encoded_list(items)) == items,
{
    lemma_lines_of_encoded_list(items);
    let decoded = decoded_list(encoded_list(items));
    assert forall|i: int| 0 <= i < items.len() implies decoded[i] == items[i] by {
        lemma_unescape_inverts_escape(items[i]);
    }
}

} // verus!
