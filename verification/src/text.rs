//! UTF-8 text: the boundaries between its characters, the offsets at which
//! they begin, and its suffixes.

use vstd::prelude::*;
use vstd::utf8::*;

verus! {

/// The greatest character boundary of `bytes` that is at most `i` (0 below
/// the text).
pub open spec fn floor_boundary(bytes: Seq<u8>, i: int) -> int
    decreases i,
{
    if i <= 0 {
        0
    } else if is_char_boundary(bytes, i) {
        i
    } else {
        floor_boundary(bytes, i - 1)
    }
}

/// The least character boundary of `bytes` that is at least `i` (the end of
/// the text beyond it).
pub open spec fn ceil_boundary(bytes: Seq<u8>, i: int) -> int
    decreases bytes.len() - i,
{
    if i >= bytes.len() {
        bytes.len() as int
    } else if is_char_boundary(bytes, i) {
        i
    } else {
        ceil_boundary(bytes, i + 1)
    }
}

/// Within valid UTF-8 a position is a character boundary exactly when it is
/// the end of the text or holds a byte that does not continue a character.
pub proof fn lemma_boundary_by_byte(bytes: Seq<u8>, i: int)
    requires
        valid_utf8(bytes),
        0 <= i <= bytes.len(),
    ensures
        is_char_boundary(bytes, i) <==> (i == bytes.len() || !is_continuation_byte(bytes[i])),
{
    if i == bytes.len() {
        is_char_boundary_start_end_of_seq(bytes);
    } else {
        is_char_boundary_iff_not_is_continuation_byte(bytes, i);
    }
}

/// A boundary of the text that follows a boundary is a boundary of the whole.
pub proof fn lemma_boundary_after_boundary(bytes: Seq<u8>, i: int, k: int)
    requires
        valid_utf8(bytes),
        is_char_boundary(bytes, i),
        is_char_boundary(bytes.subrange(i, bytes.len() as int), k),
    ensures
        is_char_boundary(bytes, i + k),
    decreases i,
{
    let n = bytes.len() as int;
    if i == 0 {
        assert(bytes.subrange(0, n) =~= bytes);
    } else {
        reveal_with_fuel(is_char_boundary, 2);
        let first = length_of_first_scalar(bytes);
        let rest = pop_first_scalar(bytes);
        valid_utf8_split(bytes, i);
        assert(rest.subrange(i - first, rest.len() as int) =~= bytes.subrange(i, n));
        lemma_boundary_after_boundary(rest, i - first, k);
    }
}

/// `ceil_boundary` finds the boundary `to` from any position `from` with no
/// boundary between them.
pub proof fn lemma_ceil_is_next(bytes: Seq<u8>, from: int, to: int)
    requires
        from <= to <= bytes.len(),
        is_char_boundary(bytes, to) || to == bytes.len(),
        forall|j: int| from <= j < to ==> !is_char_boundary(bytes, j),
    ensures
        ceil_boundary(bytes, from) == to,
    decreases to - from,
{
    if from < to {
        lemma_ceil_is_next(bytes, from + 1, to);
    }
}

/// `floor_boundary` finds the boundary `to` from any position `from` with no
/// boundary between them.
pub proof fn lemma_floor_is_previous(bytes: Seq<u8>, from: int, to: int)
    requires
        0 <= to <= from,
        is_char_boundary(bytes, to) || to == 0,
        forall|j: int| to < j <= from ==> !is_char_boundary(bytes, j),
    ensures
        floor_boundary(bytes, from) == to,
    decreases from - to,
{
    if to < from {
        lemma_floor_is_previous(bytes, from - 1, to);
    }
}

/// The character that starts at the boundary `i` ends at the next boundary:
/// it has 1 to 4 bytes, and the bytes after its first continue it.
pub proof fn lemma_char_end(bytes: Seq<u8>, i: int)
    requires
        valid_utf8(bytes),
        is_char_boundary(bytes, i),
        i < bytes.len(),
    ensures
        ({
            let w = length_of_first_scalar(bytes.subrange(i, bytes.len() as int));
            &&& 1 <= w <= 4
            &&& i + w <= bytes.len()
            &&& is_char_boundary(bytes, i + w)
            &&& forall|j: int| i < j < i + w ==> !is_char_boundary(bytes, j)
            &&& ceil_boundary(bytes, i + 1) == i + w
        }),
{
    let n = bytes.len() as int;
    let rest = bytes.subrange(i, n);
    let w = length_of_first_scalar(rest);
    valid_utf8_split(bytes, i);
    assert(valid_first_scalar(rest));
    assert(is_char_boundary(rest, w)) by {
        reveal_with_fuel(is_char_boundary, 2);
    }
    lemma_boundary_after_boundary(bytes, i, w);
    assert forall|j: int| i < j < i + w implies !is_char_boundary(bytes, j) by {
        assert(bytes[j] == rest[j - i]);
        assert(is_continuation_byte(rest[j - i]));
        lemma_boundary_by_byte(bytes, j);
    }
    lemma_ceil_is_next(bytes, i + 1, i + w);
}

/// What `floor_boundary` finds: a character boundary at or before `i`, with
/// no boundary after it up to `i`.
pub proof fn lemma_floor_boundary(bytes: Seq<u8>, i: int)
    requires
        valid_utf8(bytes),
    ensures
        0 <= floor_boundary(bytes, i),
        0 <= i ==> floor_boundary(bytes, i) <= i,
        is_char_boundary(bytes, floor_boundary(bytes, i)),
        forall|j: int| floor_boundary(bytes, i) < j <= i ==> !is_char_boundary(bytes, j),
    decreases i,
{
    if i > 0 && !is_char_boundary(bytes, i) {
        lemma_floor_boundary(bytes, i - 1);
    }
}

/// What `ceil_boundary` finds: a character boundary at or after `i`, with no
/// boundary before it from `i` on.
pub proof fn lemma_ceil_boundary(bytes: Seq<u8>, i: int)
    requires
        valid_utf8(bytes),
    ensures
        ceil_boundary(bytes, i) <= bytes.len(),
        i <= bytes.len() ==> i <= ceil_boundary(bytes, i),
        is_char_boundary(bytes, ceil_boundary(bytes, i)),
        forall|j: int| i <= j < ceil_boundary(bytes, i) ==> !is_char_boundary(bytes, j),
    decreases bytes.len() - i,
{
    if i < bytes.len() && !is_char_boundary(bytes, i) {
        lemma_ceil_boundary(bytes, i + 1);
    } else if i >= bytes.len() {
        is_char_boundary_start_end_of_seq(bytes);
    }
}

/// The encoding of a character begins with a byte that continues no other.
pub proof fn lemma_encoding_begins_char(c: char)
    ensures
        encode_scalar(c as u32).len() >= 1,
        !is_continuation_byte(encode_scalar(c as u32)[0]),
{
    let alone = seq![c];
    reveal_with_fuel(encode_utf8, 2);
    assert(alone.drop_first() =~= Seq::<char>::empty());
    assert(encode_utf8(alone) =~= encode_scalar(c as u32));
    encode_utf8_first_scalar(alone);
}

/// The bytes of two texts in a row are the bytes of the one and then those of
/// the other.
pub proof fn lemma_encode_concat(a: Seq<char>, b: Seq<char>)
    ensures
        encode_utf8(a + b) == encode_utf8(a) + encode_utf8(b),
    decreases a.len(),
{
    if a.len() == 0 {
        assert(a + b =~= b);
        assert(encode_utf8(a) + encode_utf8(b) =~= encode_utf8(b));
    } else {
        assert((a + b).drop_first() =~= a.drop_first() + b);
        lemma_encode_concat(a.drop_first(), b);
        assert(encode_utf8(a + b) =~= encode_utf8(a) + encode_utf8(b));
    }
}

/// Two texts with the same bytes are the same text.
pub proof fn lemma_bytes_fix_text(a: Seq<char>, b: Seq<char>)
    requires
        encode_utf8(a) == encode_utf8(b),
    ensures
        a == b,
{
    encode_utf8_decode_utf8(a);
    encode_utf8_decode_utf8(b);
}

/// The byte offset at which the character of index `k` begins: the number
/// of bytes of the `k` characters before it.
pub open spec fn offset_of(text: Seq<char>, k: int) -> int {
    encode_utf8(text.take(k)).len() as int
}

/// The offset of every character, and of the end of the text, is a cursor:
/// the bytes before it are those of the characters before, and the bytes from
/// it on are those of the characters from there on.
pub proof fn lemma_offset_is_cursor(text: Seq<char>, k: int)
    requires
        0 <= k <= text.len(),
    ensures
        is_char_boundary(encode_utf8(text), offset_of(text, k)),
        encode_utf8(text).subrange(0, offset_of(text, k)) == encode_utf8(text.take(k)),
        encode_utf8(text).subrange(offset_of(text, k), encode_utf8(text).len() as int)
            == encode_utf8(text.skip(k)),
{
    let bytes = encode_utf8(text);
    let head = encode_utf8(text.take(k));
    let tail = encode_utf8(text.skip(k));
    assert(text =~= text.take(k) + text.skip(k));
    lemma_encode_concat(text.take(k), text.skip(k));
    assert(bytes.subrange(0, head.len() as int) =~= head);
    assert(bytes.subrange(head.len() as int, bytes.len() as int) =~= tail);
    encode_utf8_valid_utf8(text);
    if k < text.len() {
        encode_utf8_first_scalar(text.skip(k));
        assert(bytes[head.len() as int] == tail[0]);
    }
    lemma_boundary_by_byte(bytes, head.len() as int);
}

/// Every cursor is the offset of a character or of the end of the text.
pub proof fn lemma_cursor_is_offset(text: Seq<char>, cursor: int) -> (k: int)
    requires
        is_char_boundary(encode_utf8(text), cursor),
    ensures
        0 <= k <= text.len(),
        offset_of(text, k) == cursor,
{
    let bytes = encode_utf8(text);
    encode_utf8_valid_utf8(text);
    encode_utf8_decode_utf8(text);
    valid_utf8_split(bytes, cursor);
    decode_utf8_split(bytes, cursor);
    let head = decode_utf8(bytes.subrange(0, cursor));
    let tail = decode_utf8(bytes.subrange(cursor, bytes.len() as int));
    let k = head.len() as int;
    assert(text =~= head + tail);
    assert(text.take(k) =~= head);
    decode_utf8_encode_utf8(bytes.subrange(0, cursor));
    k
}

/// Whether `byte` continues a character that an earlier byte began.
pub(crate) fn continues(byte: u8) -> (yes: bool)
    ensures
        yes == is_continuation_byte(byte),
{
    0x80 <= byte && byte <= 0xbf
}

/// The number of bytes of the character whose first byte is `lead`.
pub(crate) fn width_from_lead(lead: u8) -> (width: usize)
    ensures
        1 <= width <= 4,
        forall|bytes: Seq<u8>| bytes.len() > 0 && bytes[0] == lead
            ==> #[trigger] length_of_first_scalar(bytes) == width,
{
    if lead <= 0x7f {
        1
    } else if 0xc0 <= lead && lead <= 0xdf {
        2
    } else if 0xe0 <= lead && lead <= 0xef {
        3
    } else {
        4
    }
}

/// The greatest character boundary at or before `at`.
pub(crate) fn floor_to_boundary(bytes: &[u8], at: usize) -> (found: usize)
    requires
        valid_utf8(bytes@),
        at <= bytes@.len(),
    ensures
        found == floor_boundary(bytes@, at as int),
        found <= at,
        is_char_boundary(bytes@, found as int),
        forall|j: int| found < j <= at ==> !is_char_boundary(bytes@, j),
{
    let mut found: usize = at;
    while found > 0 && found < bytes.len() && continues(bytes[found])
        invariant
            valid_utf8(bytes@),
            found <= at <= bytes@.len(),
            forall|j: int| found < j <= at ==> !is_char_boundary(bytes@, j),
        decreases found,
    {
        proof {
            lemma_boundary_by_byte(bytes@, found as int);
        }
        found -= 1;
    }
    proof {
        lemma_boundary_by_byte(bytes@, found as int);
        lemma_floor_is_previous(bytes@, at as int, found as int);
    }
    found
}

/// The number of bytes that encode `c`.
pub fn utf8_width(c: char) -> (width: usize)
    ensures
        width == encode_scalar(c as u32).len(),
        1 <= width <= 4,
{
    let code: u32 = c as u32;
    if code <= 0x7f {
        1
    } else if code <= 0x7ff {
        2
    } else if code <= 0xffff {
        3
    } else {
        4
    }
}

/// Whether two texts are the same.
pub fn same_text(a: &str, b: &str) -> (same: bool)
    ensures
        same == (a@ == b@),
{
    let left = a.as_bytes();
    let right = b.as_bytes();
    if left.len() != right.len() {
        return false;
    }
    let mut i: usize = 0;
    while i < left.len()
        invariant
            i <= left@.len(),
            left@ == encode_utf8(a@),
            right@ == encode_utf8(b@),
            left@.len() == right@.len(),
            left@.take(i as int) == right@.take(i as int),
        decreases left@.len() - i,
    {
        if left[i] != right[i] {
            proof {
                assert(left@[i as int] != right@[i as int]);
            }
            return false;
        }
        proof {
            assert(left@.take(i + 1) =~= left@.take(i as int).push(left@[i as int]));
            assert(right@.take(i + 1) =~= right@.take(i as int).push(right@[i as int]));
        }
        i += 1;
    }
    proof {
        assert(left@.take(i as int) =~= left@);
        assert(right@.take(i as int) =~= right@);
        lemma_bytes_fix_text(a@, b@);
    }
    true
}

/// Whether `text` ends with `suffix`.
pub open spec fn ends_with(text: Seq<char>, suffix: Seq<char>) -> bool {
    suffix.len() <= text.len() && text.subrange(text.len() - suffix.len(), text.len() as int)
        == suffix
}

/// `text` without `suffix` at its end, as often as it stands there.
pub open spec fn trimmed_end(text: Seq<char>, suffix: Seq<char>) -> Seq<char>
    decreases text.len(),
{
    if suffix.len() > 0 && ends_with(text, suffix) {
        trimmed_end(text.subrange(0, text.len() - suffix.len()), suffix)
    } else {
        text
    }
}

/// A text ends with a suffix exactly when its bytes end with the bytes of the
/// suffix; what stands before the suffix has the bytes before them.
pub proof fn lemma_ends_with_by_bytes(text: Seq<char>, suffix: Seq<char>)
    ensures
        ends_with(text, suffix) <==> {
            let bytes = encode_utf8(text);
            let end = encode_utf8(suffix);
            end.len() <= bytes.len() && bytes.subrange(bytes.len() - end.len(), bytes.len() as int)
                == end
        },
        ends_with(text, suffix) ==> encode_utf8(text.subrange(0, text.len() - suffix.len()))
            == encode_utf8(text).subrange(0, encode_utf8(text).len() - encode_utf8(suffix).len()),
{
    let bytes = encode_utf8(text);
    let end = encode_utf8(suffix);
    encode_utf8_valid_utf8(text);
    encode_utf8_valid_utf8(suffix);
    encode_utf8_decode_utf8(text);
    encode_utf8_decode_utf8(suffix);
    if ends_with(text, suffix) {
        let head = text.subrange(0, text.len() - suffix.len());
        assert(text =~= head + suffix);
        lemma_encode_concat(head, suffix);
        assert(bytes.subrange(bytes.len() - end.len(), bytes.len() as int) =~= end);
        assert(bytes.subrange(0, bytes.len() - end.len()) =~= encode_utf8(head));
    }
    if end.len() <= bytes.len() && bytes.subrange(bytes.len() - end.len(), bytes.len() as int)
        == end {
        let cut = bytes.len() - end.len();
        if suffix.len() > 0 {
            encode_utf8_first_scalar(suffix);
            assert(bytes[cut] == end[0]);
        } else {
            assert(end.len() == 0);
        }
        lemma_boundary_by_byte(bytes, cut);
        valid_utf8_split(bytes, cut);
        decode_utf8_split(bytes, cut);
        let head = decode_utf8(bytes.subrange(0, cut));
        assert(text =~= head + suffix);
        assert(text.subrange(text.len() - suffix.len(), text.len() as int) =~= suffix);
    }
}

/// What stands before `suffix` at the end of `text`, where `text` ends with
/// it.
pub fn strip_suffix<'a>(text: &'a str, suffix: &str) -> (rest: Option<&'a str>)
    ensures
        match rest {
            Some(head) => ends_with(text@, suffix@) && head@ == text@.subrange(
                0,
                text@.len() - suffix@.len(),
            ),
            None => !ends_with(text@, suffix@),
        },
{
    let bytes = text.as_bytes();
    let end = suffix.as_bytes();
    proof {
        lemma_ends_with_by_bytes(text@, suffix@);
    }
    if end.len() > bytes.len() {
        return None;
    }
    let cut = bytes.len() - end.len();
    let mut i: usize = 0;
    while i < end.len()
        invariant
            i <= end@.len(),
            cut + end@.len() == bytes@.len() <= usize::MAX,
            bytes@ == encode_utf8(text@),
            end@ == encode_utf8(suffix@),
            !ends_with(text@, suffix@) <==> bytes@.subrange(cut as int, bytes@.len() as int)
                != end@,
            forall|k: int| 0 <= k < i ==> bytes@[cut + k] == end@[k],
        decreases end@.len() - i,
    {
        if bytes[cut + i] != end[i] {
            proof {
                assert(bytes@.subrange(cut as int, bytes@.len() as int)[i as int] != end@[i as int]);
            }
            return None;
        }
        i += 1;
    }
    proof {
        assert(bytes@.subrange(cut as int, bytes@.len() as int) =~= end@);
        encode_utf8_valid_utf8(text@);
        if suffix@.len() > 0 {
            encode_utf8_valid_utf8(suffix@);
            encode_utf8_first_scalar(suffix@);
            assert(bytes@[cut as int] == end@[0]);
        }
        lemma_boundary_by_byte(bytes@, cut as int);
    }
    let (head, _) = text.split_at(cut);
    proof {
        lemma_bytes_fix_text(head@, text@.subrange(0, text@.len() - suffix@.len()));
    }
    Some(head)
}

} // verus!
