//! The cursor in a text: a byte offset that splits no character, the lines
//! it moves over, and the edits that are made at it.

use vstd::prelude::*;
use vstd::string::{StringExecFns, StringSliceAdditionalSpecFns};
use vstd::utf8::*;
use crate::text::{
    ceil_boundary, floor_boundary, floor_to_boundary, lemma_boundary_by_byte, lemma_ceil_boundary,
    lemma_ceil_is_next, lemma_char_end, lemma_encode_concat, lemma_encoding_begins_char,
    lemma_floor_boundary, lemma_floor_is_previous, lemma_offset_is_cursor, offset_of, utf8_width,
    width_from_lead,
};

verus! {

/// The byte that ends a line.
pub const LINE_FEED: u8 = 0x0a;

/// The start of the line that holds position `i`: the position after the
/// nearest line feed before `i`, or the start of the text.
pub open spec fn line_start(bytes: Seq<u8>, i: int) -> int
    decreases i,
{
    if i <= 0 {
        0
    } else if bytes[i - 1] == LINE_FEED {
        i
    } else {
        line_start(bytes, i - 1)
    }
}

/// The end of the line that holds position `i`: the position of the nearest
/// line feed at or after `i`, or the end of the text.
pub open spec fn line_end(bytes: Seq<u8>, i: int) -> int
    decreases bytes.len() - i,
{
    if i >= bytes.len() {
        bytes.len() as int
    } else if bytes[i] == LINE_FEED {
        i
    } else {
        line_end(bytes, i + 1)
    }
}

/// The number of line feeds before position `i`: the line that holds `i`,
/// counted from 0.
pub open spec fn line_number(bytes: Seq<u8>, i: int) -> int
    decreases i,
{
    if i <= 0 {
        0
    } else if bytes[i - 1] == LINE_FEED {
        line_number(bytes, i - 1) + 1
    } else {
        line_number(bytes, i - 1)
    }
}

/// The distance of position `i` from the start of its line.
pub open spec fn column(bytes: Seq<u8>, i: int) -> int {
    i - line_start(bytes, i)
}

/// What bounds the start of a line: it is at most `i`, the start of the text
/// or the position after a line feed, and no line feed lies between it and `i`.
pub proof fn lemma_line_start(bytes: Seq<u8>, i: int)
    requires
        0 <= i <= bytes.len(),
    ensures
        0 <= line_start(bytes, i) <= i,
        line_start(bytes, i) == 0 || bytes[line_start(bytes, i) - 1] == LINE_FEED,
        forall|j: int| line_start(bytes, i) <= j < i ==> bytes[j] != LINE_FEED,
    decreases i,
{
    if i > 0 && bytes[i - 1] != LINE_FEED {
        lemma_line_start(bytes, i - 1);
    }
}

/// What bounds the end of a line: it is at least `i`, the end of the text or
/// the position of a line feed, and no line feed lies between `i` and it.
pub proof fn lemma_line_end(bytes: Seq<u8>, i: int)
    requires
        0 <= i <= bytes.len(),
    ensures
        i <= line_end(bytes, i) <= bytes.len(),
        line_end(bytes, i) == bytes.len() || bytes[line_end(bytes, i)] == LINE_FEED,
        forall|j: int| i <= j < line_end(bytes, i) ==> bytes[j] != LINE_FEED,
    decreases bytes.len() - i,
{
    if i < bytes.len() && bytes[i] != LINE_FEED {
        lemma_line_end(bytes, i + 1);
    }
}

/// Every position of a line has the same start of line.
pub proof fn lemma_line_start_shared(bytes: Seq<u8>, i: int, j: int)
    requires
        0 <= i <= j <= bytes.len(),
        forall|k: int| i <= k < j ==> bytes[k] != LINE_FEED,
    ensures
        line_start(bytes, j) == line_start(bytes, i),
    decreases j - i,
{
    if i < j {
        lemma_line_start_shared(bytes, i, j - 1);
    }
}

/// Every position of a line has the same end of line.
pub proof fn lemma_line_end_shared(bytes: Seq<u8>, i: int, j: int)
    requires
        0 <= i <= j <= bytes.len(),
        forall|k: int| i <= k < j ==> bytes[k] != LINE_FEED,
    ensures
        line_end(bytes, i) == line_end(bytes, j),
    decreases j - i,
{
    if i < j {
        lemma_line_end_shared(bytes, i + 1, j);
    }
}

/// The start of the line that holds `at`.
fn start_of_line(bytes: &[u8], at: usize) -> (start: usize)
    requires
        at <= bytes@.len(),
    ensures
        start == line_start(bytes@, at as int),
        start <= at,
{
    let mut start: usize = at;
    while start > 0 && bytes[start - 1] != LINE_FEED
        invariant
            start <= at <= bytes@.len(),
            line_start(bytes@, at as int) == line_start(bytes@, start as int),
        decreases start,
    {
        start -= 1;
    }
    start
}

/// The end of the line that holds `at`.
fn end_of_line(bytes: &[u8], at: usize) -> (end: usize)
    requires
        at <= bytes@.len(),
    ensures
        end == line_end(bytes@, at as int),
        at <= end <= bytes@.len(),
{
    let mut end: usize = at;
    while end < bytes.len() && bytes[end] != LINE_FEED
        invariant
            at <= end <= bytes@.len(),
            line_end(bytes@, at as int) == line_end(bytes@, end as int),
        decreases bytes@.len() - end,
    {
        end += 1;
    }
    end
}

/// The cursor one character to the left of `cursor`; at the start it stays.
pub open spec fn left_of(bytes: Seq<u8>, cursor: int) -> int {
    floor_boundary(bytes, cursor - 1)
}

/// The cursor one character to the right of `cursor`; at the end it stays.
pub open spec fn right_of(bytes: Seq<u8>, cursor: int) -> int {
    ceil_boundary(bytes, cursor + 1)
}

/// Where the cursor at `cursor` aims when it moves up a line: the same column
/// of the line before, or the end of that line where it is shorter. On the
/// first line it stays.
pub open spec fn up_target(bytes: Seq<u8>, cursor: int) -> int {
    let start = line_start(bytes, cursor);
    if start == 0 {
        cursor
    } else {
        let previous_start = line_start(bytes, start - 1);
        let previous_length = start - 1 - previous_start;
        previous_start + vstd::math::min(cursor - start, previous_length)
    }
}

/// Where the cursor at `cursor` aims when it moves down a line: the same
/// column of the line after, or the end of that line where it is shorter. On
/// the last line it stays.
pub open spec fn down_target(bytes: Seq<u8>, cursor: int) -> int {
    let end = line_end(bytes, cursor);
    if end >= bytes.len() {
        cursor
    } else {
        let next_start = end + 1;
        let next_length = line_end(bytes, next_start) - next_start;
        next_start + vstd::math::min(cursor - line_start(bytes, cursor), next_length)
    }
}

/// The cursor one line above `cursor`: its target, or the start of the
/// character that the target would split.
pub open spec fn above(bytes: Seq<u8>, cursor: int) -> int {
    floor_boundary(bytes, up_target(bytes, cursor))
}

/// The cursor one line below `cursor`: its target, or the start of the
/// character that the target would split.
pub open spec fn below(bytes: Seq<u8>, cursor: int) -> int {
    floor_boundary(bytes, down_target(bytes, cursor))
}

/// The cursor nearest to any offset: the offset itself if it is a character
/// boundary of the text, else the greatest boundary before it.
pub fn clamp_cursor(content: &str, offset: usize) -> (cursor: usize)
    ensures
        cursor == floor_boundary(content.spec_bytes(), offset as int),
        is_char_boundary(content.spec_bytes(), cursor as int),
        is_char_boundary(content.spec_bytes(), offset as int) <==> cursor == offset,
{
    let bytes = content.as_bytes();
    proof {
        encode_utf8_valid_utf8(content@);
        is_char_boundary_start_end_of_seq(bytes@);
    }
    if offset >= bytes.len() {
        proof {
            lemma_floor_is_previous(bytes@, offset as int, bytes@.len() as int);
        }
        bytes.len()
    } else {
        floor_to_boundary(bytes, offset)
    }
}

/// Moves the cursor left by one character; at the start of the text it stays.
pub fn move_left(content: &str, cursor: usize) -> (moved: usize)
    requires
        is_char_boundary(content.spec_bytes(), cursor as int),
    ensures
        moved == left_of(content.spec_bytes(), cursor as int),
        is_char_boundary(content.spec_bytes(), moved as int),
        cursor == 0 ==> moved == 0,
        cursor > 0 ==> cursor - 4 <= moved < cursor,
        forall|j: int| moved < j < cursor ==> !is_char_boundary(content.spec_bytes(), j),
{
    let bytes = content.as_bytes();
    proof {
        encode_utf8_valid_utf8(content@);
    }
    if cursor == 0 {
        return 0;
    }
    let moved = floor_to_boundary(bytes, cursor - 1);
    proof {
        lemma_char_end(bytes@, moved as int);
    }
    moved
}

/// Moves the cursor right by one character; at the end of the text it stays.
pub fn move_right(content: &str, cursor: usize) -> (moved: usize)
    requires
        is_char_boundary(content.spec_bytes(), cursor as int),
    ensures
        moved == right_of(content.spec_bytes(), cursor as int),
        is_char_boundary(content.spec_bytes(), moved as int),
        cursor == content.spec_bytes().len() ==> moved == cursor,
        cursor < content.spec_bytes().len() ==> cursor < moved <= cursor + 4,
        forall|j: int| cursor < j < moved ==> !is_char_boundary(content.spec_bytes(), j),
{
    let bytes = content.as_bytes();
    proof {
        encode_utf8_valid_utf8(content@);
    }
    if cursor >= bytes.len() {
        return cursor;
    }
    proof {
        lemma_char_end(bytes@, cursor as int);
        assert(bytes@.subrange(cursor as int, bytes@.len() as int)[0] == bytes@[cursor as int]);
    }
    cursor + width_from_lead(bytes[cursor])
}

/// Moves the cursor up one line, keeping its column where the line above is
/// long enough and stopping at the end of that line where it is not. On the
/// first line the cursor stays.
pub fn move_up(content: &str, cursor: usize) -> (moved: usize)
    requires
        is_char_boundary(content.spec_bytes(), cursor as int),
    ensures
        moved == above(content.spec_bytes(), cursor as int),
        is_char_boundary(content.spec_bytes(), moved as int),
        is_char_boundary(content.spec_bytes(), up_target(content.spec_bytes(), cursor as int))
            ==> moved == up_target(content.spec_bytes(), cursor as int),
{
    let bytes = content.as_bytes();
    proof {
        encode_utf8_valid_utf8(content@);
    }
    let start = start_of_line(bytes, cursor);
    if start == 0 {
        proof {
            lemma_floor_is_previous(bytes@, cursor as int, cursor as int);
        }
        return cursor;
    }
    let previous_start = start_of_line(bytes, start - 1);
    let column = cursor - start;
    let previous_length = start - 1 - previous_start;
    let target = if column < previous_length {
        previous_start + column
    } else {
        previous_start + previous_length
    };
    let moved = floor_to_boundary(bytes, target);
    proof {
        if is_char_boundary(bytes@, target as int) {
            lemma_floor_is_previous(bytes@, target as int, target as int);
        }
    }
    moved
}

/// Moves the cursor down one line, keeping its column where the line below
/// is long enough and stopping at the end of that line where it is not. On
/// the last line the cursor stays.
pub fn move_down(content: &str, cursor: usize) -> (moved: usize)
    requires
        is_char_boundary(content.spec_bytes(), cursor as int),
    ensures
        moved == below(content.spec_bytes(), cursor as int),
        is_char_boundary(content.spec_bytes(), moved as int),
        is_char_boundary(content.spec_bytes(), down_target(content.spec_bytes(), cursor as int))
            ==> moved == down_target(content.spec_bytes(), cursor as int),
{
    let bytes = content.as_bytes();
    proof {
        encode_utf8_valid_utf8(content@);
    }
    let end = end_of_line(bytes, cursor);
    if end >= bytes.len() {
        proof {
            lemma_floor_is_previous(bytes@, cursor as int, cursor as int);
        }
        return cursor;
    }
    let start = start_of_line(bytes, cursor);
    let next_start = end + 1;
    let next_length = end_of_line(bytes, next_start) - next_start;
    let column = cursor - start;
    let target = if column < next_length {
        next_start + column
    } else {
        next_start + next_length
    };
    let moved = floor_to_boundary(bytes, target);
    proof {
        if is_char_boundary(bytes@, target as int) {
            lemma_floor_is_previous(bytes@, target as int, target as int);
        }
    }
    moved
}

/// The line that holds the cursor, counted from 0.
pub fn cursor_line(content: &str, cursor: usize) -> (line: usize)
    requires
        cursor <= content.spec_bytes().len(),
    ensures
        line == line_number(content.spec_bytes(), cursor as int),
{
    let bytes = content.as_bytes();
    let mut line: usize = 0;
    let mut at: usize = 0;
    while at < cursor
        invariant
            at <= cursor <= bytes@.len(),
            line == line_number(bytes@, at as int),
            line <= at,
        decreases cursor - at,
    {
        if bytes[at] == LINE_FEED {
            line += 1;
        }
        at += 1;
    }
    line
}

/// The distance of the cursor from the start of its line, in bytes.
pub fn cursor_column(content: &str, cursor: usize) -> (col: usize)
    requires
        cursor <= content.spec_bytes().len(),
    ensures
        col == column(content.spec_bytes(), cursor as int),
{
    let bytes = content.as_bytes();
    cursor - start_of_line(bytes, cursor)
}

/// The bytes of a text after the character `c` was put in at position `at`.
pub open spec fn with_char(bytes: Seq<u8>, at: int, c: char) -> Seq<u8> {
    bytes.subrange(0, at) + encode_scalar(c as u32) + bytes.subrange(at, bytes.len() as int)
}

/// The bytes of a text without those from position `from` up to `to`.
pub open spec fn without(bytes: Seq<u8>, from: int, to: int) -> Seq<u8> {
    bytes.subrange(0, from) + bytes.subrange(to, bytes.len() as int)
}

/// The text after the character `c` was put in at the byte offset `at`.
pub open spec fn typed(text: Seq<char>, at: int, c: char) -> Seq<char> {
    decode_utf8(with_char(encode_utf8(text), at, c))
}

/// The text without the bytes from the offset `from` up to `to`.
pub open spec fn erased(text: Seq<char>, from: int, to: int) -> Seq<char> {
    decode_utf8(without(encode_utf8(text), from, to))
}

/// Puts `c` at the end of `text`, by `String::push`.
///
/// Trusted: the text is the old text with `c` after it.
#[verifier::external_body]
fn string_push(text: &mut String, c: char)
    ensures
        final(text)@ == old(text)@.push(c),
{
    text.push(c);
}

/// A boundary of a text, seen from a boundary before it, is a boundary of the
/// text that follows that one.
proof fn lemma_boundary_seen_from(bytes: Seq<u8>, from: int, to: int)
    requires
        valid_utf8(bytes),
        is_char_boundary(bytes, from),
        is_char_boundary(bytes, to),
        from <= to,
    ensures
        is_char_boundary(bytes.subrange(from, bytes.len() as int), to - from),
{
    let rest = bytes.subrange(from, bytes.len() as int);
    valid_utf8_split(bytes, from);
    lemma_boundary_by_byte(bytes, to);
    lemma_boundary_by_byte(rest, to - from);
}

/// The text with the character `c` put in at the cursor `at`.
fn text_with_char(text: &str, at: usize, c: char) -> (longer: String)
    requires
        is_char_boundary(text.spec_bytes(), at as int),
    ensures
        longer@ == typed(text@, at as int, c),
        encode_utf8(longer@) == with_char(text.spec_bytes(), at as int, c),
{
    let (head, tail) = text.split_at(at);
    let mut longer = String::from_str(head);
    string_push(&mut longer, c);
    longer.append(tail);
    proof {
        let alone = seq![c];
        reveal_with_fuel(encode_utf8, 2);
        assert(alone.drop_first() =~= Seq::<char>::empty());
        assert(encode_utf8(alone) =~= encode_scalar(c as u32));
        assert(head@.push(c) =~= head@ + alone);
        lemma_encode_concat(head@, alone);
        lemma_encode_concat(head@ + alone, tail@);
        encode_utf8_decode_utf8(longer@);
    }
    longer
}

/// The text without what lies between the cursors `from` and `to`.
fn text_without(text: &str, from: usize, to: usize) -> (shorter: String)
    requires
        is_char_boundary(text.spec_bytes(), from as int),
        is_char_boundary(text.spec_bytes(), to as int),
        from <= to,
    ensures
        shorter@ == erased(text@, from as int, to as int),
        encode_utf8(shorter@) == without(text.spec_bytes(), from as int, to as int),
{
    proof {
        encode_utf8_valid_utf8(text@);
        lemma_boundary_seen_from(text.spec_bytes(), from as int, to as int);
    }
    let (head, rest) = text.split_at(from);
    let (_, tail) = rest.split_at(to - from);
    let mut shorter = String::from_str(head);
    shorter.append(tail);
    proof {
        let bytes = text.spec_bytes();
        assert(rest.spec_bytes().subrange(to - from, rest.spec_bytes().len() as int)
            =~= bytes.subrange(to as int, bytes.len() as int));
        lemma_encode_concat(head@, tail@);
        encode_utf8_decode_utf8(shorter@);
    }
    shorter
}

/// A cursor that stood at the boundary `at` of a text, or after it, stands at
/// a boundary again once bytes before it were cut out at boundaries or a
/// whole character was put in before it.
proof fn lemma_boundary_kept(before: Seq<u8>, after: Seq<u8>, old_at: int, new_at: int)
    requires
        valid_utf8(before),
        valid_utf8(after),
        is_char_boundary(before, old_at),
        0 <= new_at,
        after.len() - new_at == before.len() - old_at,
        old_at < before.len() ==> after[new_at] == before[old_at],
    ensures
        is_char_boundary(after, new_at),
{
    lemma_boundary_by_byte(before, old_at);
    lemma_boundary_by_byte(after, new_at);
}

/// Puts the character `c` into the text at the cursor and moves the cursor
/// past it.
pub fn insert_char(content: &mut String, cursor: usize, c: char) -> (moved: usize)
    requires
        is_char_boundary(encode_utf8(old(content)@), cursor as int),
    ensures
        final(content)@ == typed(old(content)@, cursor as int, c),
        encode_utf8(final(content)@) == with_char(encode_utf8(old(content)@), cursor as int, c),
        encode_utf8(final(content)@).len() == encode_utf8(old(content)@).len() + encode_scalar(
            c as u32,
        ).len(),
        moved == cursor + encode_scalar(c as u32).len(),
        is_char_boundary(encode_utf8(final(content)@), moved as int),
        is_char_boundary(encode_utf8(final(content)@), cursor as int),
{
    let ghost before = encode_utf8(content@);
    proof {
        encode_utf8_valid_utf8(content@);
    }
    let longer = text_with_char(content.as_str(), cursor, c);
    *content = longer;
    let width = utf8_width(c);
    // The text holds the character now, and its length bounds the new cursor.
    let total = content.as_str().as_bytes().len();
    assert(cursor + width <= total);
    proof {
        let after = encode_utf8(content@);
        encode_utf8_valid_utf8(content@);
        encode_utf8_decode_utf8(content@);
        lemma_boundary_kept(before, after, cursor as int, cursor + width);
        lemma_encoding_begins_char(c);
        assert(after[cursor as int] == encode_scalar(c as u32)[0]);
        lemma_boundary_by_byte(after, cursor as int);
    }
    cursor + width
}

/// Takes out the character before the cursor and moves the cursor back to
/// where it began. At the start of the text nothing changes.
pub fn delete_before(content: &mut String, cursor: usize) -> (moved: usize)
    requires
        is_char_boundary(encode_utf8(old(content)@), cursor as int),
    ensures
        moved == left_of(encode_utf8(old(content)@), cursor as int),
        final(content)@ == erased(old(content)@, moved as int, cursor as int),
        encode_utf8(final(content)@) == without(
            encode_utf8(old(content)@),
            moved as int,
            cursor as int,
        ),
        is_char_boundary(encode_utf8(old(content)@), moved as int),
        is_char_boundary(encode_utf8(final(content)@), moved as int),
        cursor == 0 ==> *final(content) == *old(content),
        cursor > 0 ==> cursor - 4 <= moved < cursor,
{
    let ghost before = encode_utf8(content@);
    proof {
        encode_utf8_valid_utf8(content@);
    }
    if cursor == 0 {
        proof {
            assert(without(before, 0, 0) =~= before);
            encode_utf8_decode_utf8(content@);
        }
        return 0;
    }
    let moved = move_left(content.as_str(), cursor);
    let shorter = text_without(content.as_str(), moved, cursor);
    *content = shorter;
    proof {
        encode_utf8_valid_utf8(content@);
        encode_utf8_decode_utf8(content@);
        lemma_boundary_kept(before, encode_utf8(content@), cursor as int, moved as int);
    }
    moved
}

/// Takes out the character at the cursor, which stays where it is. At the
/// end of the text nothing changes. Returns whether a character was there.
pub fn delete_at(content: &mut String, cursor: usize) -> (removed: bool)
    requires
        is_char_boundary(encode_utf8(old(content)@), cursor as int),
    ensures
        removed == (cursor < encode_utf8(old(content)@).len()),
        final(content)@ == erased(
            old(content)@,
            cursor as int,
            right_of(encode_utf8(old(content)@), cursor as int),
        ),
        encode_utf8(final(content)@) == without(
            encode_utf8(old(content)@),
            cursor as int,
            right_of(encode_utf8(old(content)@), cursor as int),
        ),
        is_char_boundary(encode_utf8(final(content)@), cursor as int),
        !removed ==> *final(content) == *old(content),
{
    let ghost before = encode_utf8(content@);
    proof {
        encode_utf8_valid_utf8(content@);
    }
    if cursor >= content.as_str().as_bytes().len() {
        proof {
            assert(without(before, cursor as int, before.len() as int) =~= before);
            encode_utf8_decode_utf8(content@);
        }
        return false;
    }
    let end = move_right(content.as_str(), cursor);
    let shorter = text_without(content.as_str(), cursor, end);
    *content = shorter;
    proof {
        encode_utf8_valid_utf8(content@);
        encode_utf8_decode_utf8(content@);
        lemma_boundary_kept(
            before,
            encode_utf8(content@),
            right_of(before, cursor as int),
            cursor as int,
        );
    }
    true
}

/// Typing `c` at a cursor gives a text whose bytes are those of the old text
/// with the encoding of `c` put in at the cursor; the cursor after `c`, and
/// the cursor before it, split no character.
pub proof fn lemma_typed(text: Seq<char>, cursor: int, c: char)
    requires
        is_char_boundary(encode_utf8(text), cursor),
    ensures
        encode_utf8(typed(text, cursor, c)) == with_char(encode_utf8(text), cursor, c),
        is_char_boundary(encode_utf8(typed(text, cursor, c)), cursor),
        is_char_boundary(
            encode_utf8(typed(text, cursor, c)),
            cursor + encode_scalar(c as u32).len(),
        ),
{
    let bytes = encode_utf8(text);
    let alone = seq![c];
    encode_utf8_valid_utf8(text);
    encode_utf8_valid_utf8(alone);
    valid_utf8_split(bytes, cursor);
    reveal_with_fuel(encode_utf8, 2);
    assert(alone.drop_first() =~= Seq::<char>::empty());
    assert(encode_utf8(alone) =~= encode_scalar(c as u32));
    let head = bytes.subrange(0, cursor);
    let tail = bytes.subrange(cursor, bytes.len() as int);
    valid_utf8_concat(head, encode_scalar(c as u32));
    valid_utf8_concat(head + encode_scalar(c as u32), tail);
    let after = with_char(bytes, cursor, c);
    decode_utf8_encode_utf8(after);
    lemma_encoding_begins_char(c);
    assert(after[cursor] == encode_scalar(c as u32)[0]);
    lemma_boundary_by_byte(after, cursor);
    lemma_boundary_kept(bytes, after, cursor, cursor + encode_scalar(c as u32).len());
}

/// Erasing what lies between two character boundaries gives a text whose
/// bytes are those of the old text without the bytes between them; the first
/// of the two still splits no character.
pub proof fn lemma_erased(text: Seq<char>, from: int, to: int)
    requires
        is_char_boundary(encode_utf8(text), from),
        is_char_boundary(encode_utf8(text), to),
        from <= to,
    ensures
        encode_utf8(erased(text, from, to)) == without(encode_utf8(text), from, to),
        is_char_boundary(encode_utf8(erased(text, from, to)), from),
{
    let bytes = encode_utf8(text);
    encode_utf8_valid_utf8(text);
    valid_utf8_split(bytes, from);
    valid_utf8_split(bytes, to);
    valid_utf8_concat(bytes.subrange(0, from), bytes.subrange(to, bytes.len() as int));
    let after = without(bytes, from, to);
    decode_utf8_encode_utf8(after);
    lemma_boundary_kept(bytes, after, to, from);
}

/// Moving left and then right brings the cursor back, unless it stood at the
/// start of the text.
pub proof fn lemma_left_then_right(text: Seq<char>, cursor: int)
    requires
        is_char_boundary(encode_utf8(text), cursor),
        cursor > 0,
    ensures
        right_of(encode_utf8(text), left_of(encode_utf8(text), cursor)) == cursor,
{
    let bytes = encode_utf8(text);
    encode_utf8_valid_utf8(text);
    lemma_floor_boundary(bytes, cursor - 1);
    lemma_ceil_is_next(bytes, left_of(bytes, cursor) + 1, cursor);
}

/// Moving right and then left brings the cursor back, unless it stood at the
/// end of the text.
pub proof fn lemma_right_then_left(text: Seq<char>, cursor: int)
    requires
        is_char_boundary(encode_utf8(text), cursor),
        cursor < encode_utf8(text).len(),
    ensures
        left_of(encode_utf8(text), right_of(encode_utf8(text), cursor)) == cursor,
{
    let bytes = encode_utf8(text);
    encode_utf8_valid_utf8(text);
    lemma_ceil_boundary(bytes, cursor + 1);
    lemma_floor_is_previous(bytes, right_of(bytes, cursor) - 1, cursor);
}

/// Moving down and then up brings the cursor back, where a line follows the
/// cursor's line that is at least as long as the cursor's column, and the
/// cursor's column of that line splits no character.
pub proof fn lemma_down_then_up(text: Seq<char>, cursor: int)
    requires
        is_char_boundary(encode_utf8(text), cursor),
        line_end(encode_utf8(text), cursor) < encode_utf8(text).len(),
        column(encode_utf8(text), cursor) <= line_end(
            encode_utf8(text),
            line_end(encode_utf8(text), cursor) + 1,
        ) - (line_end(encode_utf8(text), cursor) + 1),
        is_char_boundary(encode_utf8(text), down_target(encode_utf8(text), cursor)),
    ensures
        below(encode_utf8(text), cursor) == down_target(encode_utf8(text), cursor),
        above(encode_utf8(text), below(encode_utf8(text), cursor)) == cursor,
{
    let bytes = encode_utf8(text);
    encode_utf8_valid_utf8(text);
    let start = line_start(bytes, cursor);
    let end = line_end(bytes, cursor);
    let next_start = end + 1;
    let target = down_target(bytes, cursor);
    lemma_line_start(bytes, cursor);
    lemma_line_end(bytes, cursor);
    lemma_line_end(bytes, next_start);
    assert(target == next_start + (cursor - start));
    lemma_floor_is_previous(bytes, target, target);
    assert(below(bytes, cursor) == target);
    // The target lies on the line after the cursor's, whose start it shares.
    lemma_line_start_shared(bytes, next_start, target);
    assert(line_start(bytes, target) == next_start);
    // The line before that one is the cursor's.
    lemma_line_start_shared(bytes, cursor, end);
    assert(line_start(bytes, next_start - 1) == start);
    assert(up_target(bytes, target) == cursor);
    lemma_floor_is_previous(bytes, cursor, cursor);
}

/// Moving up and then down brings the cursor back, where a line precedes
/// the cursor's line that is at least as long as the cursor's column, and the
/// cursor's column of that line splits no character.
pub proof fn lemma_up_then_down(text: Seq<char>, cursor: int)
    requires
        is_char_boundary(encode_utf8(text), cursor),
        line_start(encode_utf8(text), cursor) > 0,
        column(encode_utf8(text), cursor) <= line_start(encode_utf8(text), cursor) - 1
            - line_start(encode_utf8(text), line_start(encode_utf8(text), cursor) - 1),
        is_char_boundary(encode_utf8(text), up_target(encode_utf8(text), cursor)),
    ensures
        above(encode_utf8(text), cursor) == up_target(encode_utf8(text), cursor),
        below(encode_utf8(text), above(encode_utf8(text), cursor)) == cursor,
{
    let bytes = encode_utf8(text);
    encode_utf8_valid_utf8(text);
    let start = line_start(bytes, cursor);
    let previous_start = line_start(bytes, start - 1);
    let target = up_target(bytes, cursor);
    lemma_line_start(bytes, cursor);
    lemma_line_start(bytes, start - 1);
    lemma_line_end(bytes, cursor);
    assert(target == previous_start + (cursor - start));
    lemma_floor_is_previous(bytes, target, target);
    assert(above(bytes, cursor) == target);
    // The target lies on the line before the cursor's, which ends at `start - 1`.
    lemma_line_start_shared(bytes, previous_start, target);
    lemma_line_end_shared(bytes, target, start - 1);
    assert(line_end(bytes, target) == start - 1);
    assert(line_start(bytes, previous_start) == previous_start);
    assert(line_start(bytes, target) == previous_start);
    // The line after that one is the cursor's.
    lemma_line_end_shared(bytes, start, cursor);
    assert(down_target(bytes, target) == cursor);
    lemma_floor_is_previous(bytes, cursor, cursor);
}

/// In characters: moving right from the offset of a character leads to the
/// offset of the next, and moving left from there leads back.
pub proof fn lemma_moves_by_characters(text: Seq<char>, k: int)
    requires
        0 <= k < text.len(),
    ensures
        right_of(encode_utf8(text), offset_of(text, k)) == offset_of(text, k + 1),
        left_of(encode_utf8(text), offset_of(text, k + 1)) == offset_of(text, k),
        offset_of(text, k + 1) == offset_of(text, k) + encode_scalar(text[k] as u32).len(),
{
    let bytes = encode_utf8(text);
    let here = offset_of(text, k);
    encode_utf8_valid_utf8(text);
    lemma_offset_is_cursor(text, k);
    lemma_offset_is_cursor(text, k + 1);
    assert(text.take(k + 1) =~= text.take(k) + seq![text[k]]);
    lemma_encode_concat(text.take(k), seq![text[k]]);
    reveal_with_fuel(encode_utf8, 2);
    assert(seq![text[k]].drop_first() =~= Seq::<char>::empty());
    assert(encode_utf8(seq![text[k]]) =~= encode_scalar(text[k] as u32));
    encode_utf8_first_scalar(text.skip(k));
    lemma_char_end(bytes, here);
    lemma_right_then_left(text, here);
}

/// In characters: typing `c` at the offset of the character of index `k`
/// puts `c` before that character.
pub proof fn lemma_typed_by_characters(text: Seq<char>, k: int, c: char)
    requires
        0 <= k <= text.len(),
    ensures
        typed(text, offset_of(text, k), c) == text.insert(k, c),
{
    let alone = seq![c];
    lemma_offset_is_cursor(text, k);
    reveal_with_fuel(encode_utf8, 2);
    assert(alone.drop_first() =~= Seq::<char>::empty());
    assert(encode_utf8(alone) =~= encode_scalar(c as u32));
    lemma_encode_concat(text.take(k), alone);
    lemma_encode_concat(text.take(k) + alone, text.skip(k));
    assert(text.insert(k, c) =~= text.take(k) + alone + text.skip(k));
    encode_utf8_decode_utf8(text.insert(k, c));
}

/// In characters: erasing from the offset of the character of index `k` up to
/// the offset of the next takes that character out.
pub proof fn lemma_erased_by_characters(text: Seq<char>, k: int)
    requires
        0 <= k < text.len(),
    ensures
        erased(text, offset_of(text, k), offset_of(text, k + 1)) == text.remove(k),
{
    lemma_offset_is_cursor(text, k);
    lemma_offset_is_cursor(text, k + 1);
    lemma_encode_concat(text.take(k), text.skip(k + 1));
    assert(text.remove(k) =~= text.take(k) + text.skip(k + 1));
    encode_utf8_decode_utf8(text.remove(k));
}

} // verus!
