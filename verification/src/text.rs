//! Texts: comparing, decoding, trimming, splitting at a separator and joining.

use vstd::prelude::*;
use vstd::utf8::{decode_utf8, encode_utf8, valid_utf8};

verus! {

/// Whether a character is white space, by the Unicode property of that name.
pub open spec fn is_white(c: char) -> bool {
    let code = c as u32;
    ||| 0x9 <= code <= 0xd
    ||| code == 0x20
    ||| code == 0x85
    ||| code == 0xa0
    ||| code == 0x1680
    ||| 0x2000 <= code <= 0x200a
    ||| code == 0x2028
    ||| code == 0x2029
    ||| code == 0x202f
    ||| code == 0x205f
    ||| code == 0x3000
}

/// A text without the white space at its start.
pub open spec fn trimmed_start(text: Seq<char>) -> Seq<char>
    decreases text.len(),
{
    if text.len() > 0 && is_white(text.first()) {
        trimmed_start(text.drop_first())
    } else {
        text
    }
}

/// A text without the white space at its end.
pub open spec fn trimmed_end(text: Seq<char>) -> Seq<char>
    decreases text.len(),
{
    if text.len() > 0 && is_white(text.last()) {
        trimmed_end(text.drop_last())
    } else {
        text
    }
}

/// A text without the white space at its two ends.
pub open spec fn trimmed(text: Seq<char>) -> Seq<char> {
    trimmed_end(trimmed_start(text))
}

/// The pieces between the separators of a text: one more than it has separators.
pub open spec fn pieces(text: Seq<char>, separator: char) -> Seq<Seq<char>>
    decreases text.len(),
{
    if text.len() == 0 {
        seq![Seq::empty()]
    } else {
        let before = pieces(text.drop_last(), separator);
        if text.last() == separator {
            before.push(Seq::empty())
        } else {
            before.drop_last().push(before.last().push(text.last()))
        }
    }
}

/// Pieces put together, with a separator between each two of them.
pub open spec fn joined(parts: Seq<Seq<char>>, separator: Seq<char>) -> Seq<char>
    decreases parts.len(),
{
    if parts.len() == 0 {
        Seq::empty()
    } else if parts.len() == 1 {
        parts[0]
    } else {
        joined(parts.drop_last(), separator) + separator + parts.last()
    }
}

/// The characters of each of some texts.
pub open spec fn texts(strings: Seq<String>) -> Seq<Seq<char>> {
    strings.map_values(|s: String| s@)
}

/// Two texts are equal when they hold the same characters.
pub assume_specification[ <str as PartialEq>::eq ](a: &str, b: &str) -> (equal: bool)
    ensures
        equal == (a@ == b@),
;

/// `String::from_utf8`: the text that some bytes are in UTF-8, if they are one.
#[verifier::external_body]
pub(crate) fn decode(bytes: Vec<u8>) -> (decoded: Option<String>)
    ensures
        decoded is Some <==> valid_utf8(bytes@),
        decoded matches Some(text) ==> text@ == decode_utf8(bytes@),
{
    String::from_utf8(bytes).ok()
}

/// Whether a character is white space.
fn char_is_white(c: char) -> (white: bool)
    ensures
        white == is_white(c),
{
    let code = c as u32;
    (0x9 <= code && code <= 0xd) || code == 0x20 || code == 0x85 || code == 0xa0 || code == 0x1680
        || (0x2000 <= code && code <= 0x200a) || code == 0x2028 || code == 0x2029 || code == 0x202f
        || code == 0x205f || code == 0x3000
}

/// The text without the white space at its two ends.
pub fn trim(text: &str) -> (rest: &str)
    ensures
        rest@ == trimmed(text@),
{
    let count = text.unicode_len();
    let mut index: usize = 0;
    let mut start: usize = 0;
    let mut end: usize = 0;
    for c in it: text.chars()
        invariant
            it.seq() == text@,
            count == text@.len(),
            index == it.index(),
            index <= count,
            if end == 0 {
                start == index
            } else {
                &&& start < end <= index
                &&& !is_white(text@[start as int])
                &&& !is_white(text@[end - 1])
            },
            forall|k: int| 0 <= k < start ==> is_white(#[trigger] text@[k]),
            forall|k: int| end <= k < index ==> is_white(#[trigger] text@[k]),
    {
        if !char_is_white(c) {
            end = index + 1;
        } else if end == 0 {
            start = index + 1;
        }
        index = index + 1;
    }
    proof {
        lemma_trimmed_start_at(text@, start as int);
        let tail = text@.skip(start as int);
        let length = if end == 0 {
            0
        } else {
            end - start
        };
        lemma_trimmed_end_at(tail, length);
        assert(tail.take(length) =~= text@.subrange(
            if end == 0 {
                0
            } else {
                start as int
            },
            end as int,
        ));
    }
    if end == 0 {
        start = 0;
    }
    text.substring_char(start, end)
}

/// A text is trimmed at its start up to the first character that is no white space.
proof fn lemma_trimmed_start_at(text: Seq<char>, start: int)
    requires
        0 <= start <= text.len(),
        forall|k: int| 0 <= k < start ==> is_white(#[trigger] text[k]),
        start < text.len() ==> !is_white(text[start]),
    ensures
        trimmed_start(text) == text.skip(start),
    decreases start,
{
    if start == 0 {
        assert(text.skip(0) =~= text);
    } else {
        let rest = text.drop_first();
        assert(forall|k: int| 0 <= k < rest.len() ==> rest[k] == text[k + 1]);
        lemma_trimmed_start_at(rest, start - 1);
        assert(rest.skip(start - 1) =~= text.skip(start));
    }
}

/// A text is trimmed at its end down to the last character that is no white space.
proof fn lemma_trimmed_end_at(text: Seq<char>, end: int)
    requires
        0 <= end <= text.len(),
        forall|k: int| end <= k < text.len() ==> is_white(#[trigger] text[k]),
        end > 0 ==> !is_white(text[end - 1]),
    ensures
        trimmed_end(text) == text.take(end),
    decreases text.len(),
{
    if end == text.len() {
        assert(text.take(end) =~= text);
    } else {
        let rest = text.drop_last();
        assert(forall|k: int| 0 <= k < rest.len() ==> rest[k] == text[k]);
        lemma_trimmed_end_at(rest, end);
        assert(rest.take(end) =~= text.take(end));
    }
}

/// Splits a text at each separator in it.
pub fn split(text: &str, separator: char) -> (parts: Vec<String>)
    ensures
        texts(parts@) == pieces(text@, separator),
{
    let count = text.unicode_len();
    let mut parts: Vec<String> = Vec::new();
    let mut start: usize = 0;
    let mut end: usize = 0;
    assert(text@.subrange(0, 0) =~= Seq::empty());
    assert(texts(parts@).push(text@.subrange(0, 0)) =~= seq![Seq::empty()]);
    for c in it: text.chars()
        invariant
            it.seq() == text@,
            count == text@.len(),
            end == it.index(),
            start <= end <= count,
            pieces(text@.take(end as int), separator) == texts(parts@).push(
                text@.subrange(start as int, end as int),
            ),
    {
        let ghost before = texts(parts@);
        let ghost current = text@.subrange(start as int, end as int);
        assert(text@.take(end + 1).drop_last() =~= text@.take(end as int));
        assert(before.push(current).drop_last() =~= before);
        assert(current.push(c) =~= text@.subrange(start as int, end + 1));
        if c == separator {
            parts.push(text.substring_char(start, end).to_owned());
            assert(texts(parts@) =~= before.push(current));
            start = end + 1;
            assert(text@.subrange(start as int, end + 1) =~= Seq::empty());
        }
        end = end + 1;
    }
    let ghost before = texts(parts@);
    parts.push(text.substring_char(start, end).to_owned());
    assert(texts(parts@) =~= before.push(text@.subrange(start as int, end as int)));
    assert(text@.take(end as int) =~= text@);
    parts
}

/// Joins texts, with a separator between each two of them.
pub fn join(parts: &Vec<String>, separator: &str) -> (text: String)
    ensures
        text@ == joined(texts(parts@), separator@),
{
    let mut text = String::new();
    for i in 0..parts.len()
        invariant
            text@ == joined(texts(parts@).take(i as int), separator@),
    {
        if i > 0 {
            text.append(separator);
        }
        text.append(parts[i].as_str());
        assert(texts(parts@).take(i + 1).drop_last() =~= texts(parts@).take(i as int));
    }
    assert(texts(parts@).take(parts@.len() as int) =~= texts(parts@));
    text
}

/// A text has at least one piece.
proof fn lemma_pieces_not_empty(text: Seq<char>, separator: char)
    ensures
        pieces(text, separator).len() > 0,
    decreases text.len(),
{
    if text.len() > 0 {
        lemma_pieces_not_empty(text.drop_last(), separator);
    }
}

/// What comes behind a text without a separator makes its last piece longer.
proof fn lemma_pieces_extend(text: Seq<char>, end: Seq<char>, separator: char)
    requires
        !end.contains(separator),
    ensures
        pieces(text + end, separator) == pieces(text, separator).drop_last().push(
            pieces(text, separator).last() + end,
        ),
    decreases end.len(),
{
    let whole = pieces(text, separator);
    lemma_pieces_not_empty(text, separator);
    if end.len() == 0 {
        assert(text + end =~= text);
        assert(whole.last() + end =~= whole.last());
        assert(whole.drop_last().push(whole.last()) =~= whole);
    } else {
        let start = end.drop_last();
        assert(!start.contains(separator)) by {
            assert(forall|i: int| 0 <= i < start.len() ==> start[i] == end[i]);
        }
        lemma_pieces_extend(text, start, separator);
        assert((text + end).drop_last() =~= text + start);
        assert(end.last() != separator) by {
            assert(end[end.len() - 1] == end.last());
        }
        let shorter = pieces(text + start, separator);
        assert(shorter.drop_last() =~= whole.drop_last());
        assert((whole.last() + start).push(end.last()) =~= whole.last() + end);
    }
}

/// Pieces that hold no separator are found again in the text that they are joined to.
pub proof fn lemma_split_undoes_join(parts: Seq<Seq<char>>, separator: char)
    requires
        parts.len() > 0,
        forall|i: int| 0 <= i < parts.len() ==> !(#[trigger] parts[i]).contains(separator),
    ensures
        pieces(joined(parts, seq![separator]), separator) == parts,
    decreases parts.len(),
{
    let text = joined(parts, seq![separator]);
    if parts.len() == 1 {
        assert(Seq::empty() + parts[0] =~= text);
        lemma_pieces_extend(Seq::empty(), parts[0], separator);
        assert(Seq::<char>::empty() + parts[0] =~= parts[0]);
        assert(pieces(text, separator) =~= parts);
    } else {
        let before = parts.drop_last();
        lemma_split_undoes_join(before, separator);
        let start = joined(before, seq![separator]) + seq![separator];
        assert(start.drop_last() =~= joined(before, seq![separator]));
        lemma_pieces_extend(start, parts.last(), separator);
        assert(pieces(start, separator).drop_last() =~= before);
        assert(Seq::<char>::empty() + parts.last() =~= parts.last());
        assert(pieces(text, separator) =~= parts);
    }
}

/// The pieces of a text hold no separator, and joined they are the text.
pub proof fn lemma_join_undoes_split(text: Seq<char>, separator: char)
    ensures
        pieces(text, separator).len() > 0,
        forall|i: int|
            0 <= i < pieces(text, separator).len() ==> !(#[trigger] pieces(
                text,
                separator,
            )[i]).contains(separator),
        joined(pieces(text, separator), seq![separator]) == text,
    decreases text.len(),
{
    let all = pieces(text, separator);
    if text.len() == 0 {
        assert(joined(all, seq![separator]) =~= text);
    } else {
        let start = text.drop_last();
        let before = pieces(start, separator);
        lemma_join_undoes_split(start, separator);
        assert(start.push(text.last()) =~= text);
        if text.last() == separator {
            assert(all.drop_last() =~= before);
            assert(joined(all, seq![separator]) =~= text);
        } else {
            let longer = before.last().push(text.last());
            assert(all.drop_last() =~= before.drop_last());
            assert forall|i: int| 0 <= i < all.len() implies !(#[trigger] all[i]).contains(
                separator,
            ) by {
                if i == all.len() - 1 {
                    assert forall|k: int| 0 <= k < longer.len() implies longer[k] != separator by {
                        if k < before.last().len() {
                            assert(!before[before.len() - 1].contains(separator));
                            assert(longer[k] == before.last()[k]);
                        }
                    }
                } else {
                    assert(all[i] == before[i]);
                }
            }
            if all.len() == 1 {
                assert(before.len() == 1);
                assert(joined(all, seq![separator]) =~= text);
            } else {
                assert(joined(all, seq![separator]) =~= joined(before, seq![separator]).push(
                    text.last(),
                ));
            }
        }
    }
}

/// White space is dropped at the start of what comes first, if something other than white space
/// is left of it or comes next.
pub(crate) proof fn lemma_trimmed_start_of_both(first: Seq<char>, next: Seq<char>)
    requires
        trimmed_start(first).len() > 0 || (next.len() > 0 && !is_white(next.first())),
    ensures
        trimmed_start(first + next) == trimmed_start(first) + next,
    decreases first.len(),
{
    let both = first + next;
    if first.len() == 0 {
        assert(both =~= next);
        assert(trimmed_start(first) + next =~= next);
    } else if is_white(first.first()) {
        lemma_trimmed_start_of_both(first.drop_first(), next);
        assert(both.drop_first() =~= first.drop_first() + next);
    }
}

/// White space is dropped at the end of what comes next, if what comes first ends in something
/// other than white space.
pub(crate) proof fn lemma_trimmed_end_of_both(first: Seq<char>, next: Seq<char>)
    requires
        first.len() > 0,
        !is_white(first.last()),
    ensures
        trimmed_end(first + next) == first + trimmed_end(next),
    decreases next.len(),
{
    let both = first + next;
    if next.len() == 0 {
        assert(both =~= first);
        assert(first + trimmed_end(next) =~= first);
    } else if is_white(next.last()) {
        lemma_trimmed_end_of_both(first, next.drop_last());
        assert(both.drop_last() =~= first + next.drop_last());
    }
}

/// What is left of a trimmed text are characters of the text.
pub(crate) proof fn lemma_trimmed_is_part(text: Seq<char>, c: char)
    requires
        !text.contains(c),
    ensures
        !trimmed_start(text).contains(c),
        !trimmed_end(text).contains(c),
    decreases text.len(),
{
    if text.len() > 0 {
        let (rest, start) = (text.drop_first(), text.drop_last());
        assert(forall|i: int| 0 <= i < rest.len() ==> rest[i] == text[i + 1]);
        assert(forall|i: int| 0 <= i < start.len() ==> start[i] == text[i]);
        lemma_trimmed_is_part(rest, c);
        lemma_trimmed_is_part(start, c);
    }
}

/// A text that neither starts nor ends with white space is trimmed already.
pub proof fn lemma_trimmed_stays(text: Seq<char>)
    requires
        text.len() > 0 ==> !is_white(text.first()) && !is_white(text.last()),
    ensures
        trimmed_start(text) == text,
        trimmed_end(text) == text,
        trimmed(text) == text,
{
}

/// Texts joined in two parts are joined with one more separator between the parts, and one text
/// is itself.
pub proof fn lemma_joined_in_parts(
    parts: Seq<Seq<char>>,
    more: Seq<Seq<char>>,
    separator: Seq<char>,
)
    requires
        parts.len() > 0,
        more.len() > 0,
    ensures
        joined(parts + more, separator) == joined(parts, separator) + separator + joined(
            more,
            separator,
        ),
        joined(seq![more[0]], separator) == more[0],
        joined(Seq::empty(), separator) == Seq::<char>::empty(),
    decreases more.len(),
{
    let all = parts + more;
    if more.len() == 1 {
        assert(all.drop_last() =~= parts);
    } else {
        let fewer = more.drop_last();
        assert(all.drop_last() =~= parts + fewer);
        lemma_joined_in_parts(parts, fewer, separator);
        assert(joined(all, separator) =~= joined(parts, separator) + separator + joined(
            more,
            separator,
        ));
    }
}

/// Trimming takes away the white space around a text, all of it and nothing else.
pub proof fn lemma_white_space_around(before: Seq<char>, middle: Seq<char>, after: Seq<char>)
    requires
        forall|i: int| 0 <= i < before.len() ==> is_white(#[trigger] before[i]),
        forall|i: int| 0 <= i < after.len() ==> is_white(#[trigger] after[i]),
        middle.len() > 0 ==> !is_white(middle.first()) && !is_white(middle.last()),
    ensures
        trimmed(before + middle + after) == middle,
        trimmed_end(middle + after) == middle,
        trimmed_start(before + middle) == middle,
{
    let text = before + middle + after;
    let rest = middle + after;
    if middle.len() == 0 {
        lemma_trimmed_start_at(text, text.len() as int);
        assert(text.skip(text.len() as int) =~= middle);
        lemma_trimmed_end_at(rest, 0);
        assert(rest.take(0) =~= middle);
        lemma_trimmed_start_at(before + middle, before.len() as int);
        assert((before + middle).skip(before.len() as int) =~= middle);
        lemma_trimmed_end_at(middle, 0);
        assert(middle.take(0) =~= middle);
    } else {
        lemma_trimmed_start_at(text, before.len() as int);
        assert(text.skip(before.len() as int) =~= rest);
        lemma_trimmed_end_at(rest, middle.len() as int);
        assert(rest.take(middle.len() as int) =~= middle);
        lemma_trimmed_start_at(before + middle, before.len() as int);
        assert((before + middle).skip(before.len() as int) =~= middle);
    }
}

/// The texts of strings are those of each of them, in their order.
pub proof fn lemma_texts_of_each(strings: Seq<String>, i: int)
    requires
        0 <= i < strings.len(),
    ensures
        texts(strings).len() == strings.len(),
        texts(strings)[i] == strings[i]@,
{
}

/// The bytes of two texts in a row are those of the one and then those of the other.
pub(crate) proof fn lemma_encoded_in_a_row(first: Seq<char>, next: Seq<char>)
    ensures
        encode_utf8(first + next) == encode_utf8(first) + encode_utf8(next),
    decreases first.len(),
{
    let both = first + next;
    if first.len() == 0 {
        assert(both =~= next);
        assert(encode_utf8(first) + encode_utf8(next) =~= encode_utf8(next));
    } else {
        assert(both.drop_first() =~= first.drop_first() + next);
        assert(both[0] == first[0]);
        lemma_encoded_in_a_row(first.drop_first(), next);
        assert(encode_utf8(both) =~= encode_utf8(first) + encode_utf8(next));
    }
}

} // verus!
