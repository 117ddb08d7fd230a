//! Texts as UTF-8 bytes: where a text can be cut, and how positions counted
//! in bytes relate to the characters.

use crate::occurrence::{first_occurrence, first_occurrence_is_first, occurs_at};
use vstd::prelude::*;
use vstd::string::*;
use vstd::utf8::*;

verus! {

/// Whether a text with the bytes `haystack` can be cut at `start` and at
/// `end`: both lie inside it, in this order, between two characters.
pub open spec fn cuts(haystack: Seq<u8>, start: usize, end: usize) -> bool {
    &&& start <= end <= haystack.len()
    &&& is_char_boundary(haystack, start as int)
    &&& is_char_boundary(haystack, end as int)
}

/// The position, counted in bytes, of the character of `text` with the index
/// `index`.
pub open spec fn byte_offset(text: Seq<char>, index: int) -> int {
    encode_utf8(text.take(index)).len() as int
}

/// A valid text that starts with another valid text has a character boundary
/// where that one ends.
proof fn lemma_prefix_ends_on_boundary(bytes: Seq<u8>, prefix: Seq<u8>)
    requires
        valid_utf8(bytes),
        valid_utf8(prefix),
        occurs_at(bytes, prefix, 0),
    ensures
        is_char_boundary(bytes, prefix.len() as int),
    decreases prefix.len(),
{
    if prefix.len() > 0 {
        let width = length_of_first_scalar(prefix);
        assert(forall|i: int| 0 <= i < prefix.len() ==> bytes[i] == bytes.subrange(
            0,
            prefix.len() as int,
        )[i]);
        assert(valid_first_scalar(prefix));
        assert(valid_first_scalar(bytes));
        assert(length_of_first_scalar(bytes) == width);
        let bytes_rest = pop_first_scalar(bytes);
        let prefix_rest = pop_first_scalar(prefix);
        assert(bytes_rest.subrange(0, prefix_rest.len() as int) =~= prefix_rest);
        lemma_prefix_ends_on_boundary(bytes_rest, prefix_rest);
    }
}

/// Where a non-empty valid text stands in a valid text, it starts and ends on
/// character boundaries.
pub(crate) proof fn lemma_occurrence_on_boundaries(haystack: Seq<u8>, needle: Seq<u8>, at: int)
    requires
        valid_utf8(haystack),
        valid_utf8(needle),
        occurs_at(haystack, needle, at),
        needle.len() > 0,
    ensures
        is_char_boundary(haystack, at),
        is_char_boundary(haystack, at + needle.len()),
{
    let end = at + needle.len();
    assert(haystack[at] == haystack.subrange(at, end)[0]);
    is_char_boundary_iff_not_is_continuation_byte(needle, 0);
    is_char_boundary_iff_not_is_continuation_byte(haystack, at);
    if end == haystack.len() {
        is_char_boundary_start_end_of_seq(haystack);
    } else {
        let tail = haystack.subrange(at, haystack.len() as int);
        valid_utf8_split(haystack, at);
        assert(tail.subrange(0, needle.len() as int) =~= needle);
        lemma_prefix_ends_on_boundary(tail, needle);
        is_char_boundary_iff_not_is_continuation_byte(tail, needle.len() as int);
        is_char_boundary_iff_not_is_continuation_byte(haystack, end);
    }
}

/// The UTF-8 encoding of `c`.
pub(crate) fn encode_char(c: char) -> (bytes: Vec<u8>)
    ensures
        bytes@ == encode_scalar(c as u32),
{
    let code: u32 = c as u32;
    let mut bytes: Vec<u8> = Vec::new();
    proof {
        char_is_scalar(c);
    }
    if code <= 0x7F {
        bytes.push((code & 0x7F) as u8);
    } else if code <= 0x7FF {
        bytes.push(0xC0 | ((code >> 6) & 0x1F) as u8);
        bytes.push(0x80 | (code & 0x3F) as u8);
    } else if code <= 0xFFFF {
        bytes.push(0xE0 | ((code >> 12) & 0x0F) as u8);
        bytes.push(0x80 | ((code >> 6) & 0x3F) as u8);
        bytes.push(0x80 | (code & 0x3F) as u8);
    } else {
        bytes.push(0xF0 | ((code >> 18) & 0x7) as u8);
        bytes.push(0x80 | ((code >> 12) & 0x3F) as u8);
        bytes.push(0x80 | ((code >> 6) & 0x3F) as u8);
        bytes.push(0x80 | (code & 0x3F) as u8);
    }
    assert(bytes@ =~= encode_scalar(code));
    bytes
}

/// The characters of a valid text that is cut at two character boundaries
/// are those before the cut, those inside it and those after it.
proof fn lemma_decode_cut(bytes: Seq<u8>, start: int, end: int)
    requires
        valid_utf8(bytes),
        0 <= start <= end <= bytes.len(),
        is_char_boundary(bytes, start),
        is_char_boundary(bytes, end),
    ensures
        valid_utf8(bytes.subrange(0, start)),
        valid_utf8(bytes.subrange(start, end)),
        valid_utf8(bytes.subrange(end, bytes.len() as int)),
        decode_utf8(bytes) == decode_utf8(bytes.subrange(0, start)) + decode_utf8(
            bytes.subrange(start, end),
        ) + decode_utf8(bytes.subrange(end, bytes.len() as int)),
{
    let tail = bytes.subrange(start, bytes.len() as int);
    valid_utf8_split(bytes, start);
    decode_utf8_split(bytes, start);
    if end < bytes.len() {
        is_char_boundary_iff_not_is_continuation_byte(bytes, end);
        if start < end {
            is_char_boundary_iff_not_is_continuation_byte(tail, end - start);
        }
    } else {
        is_char_boundary_start_end_of_seq(tail);
    }
    valid_utf8_split(tail, end - start);
    decode_utf8_split(tail, end - start);
    assert(tail.subrange(0, end - start) =~= bytes.subrange(start, end));
    assert(tail.subrange(end - start, tail.len() as int) =~= bytes.subrange(
        end,
        bytes.len() as int,
    ));
}

/// A cut loses no character: where `whole` is cut at `start` and `end`, the
/// characters before the cut, inside it and after it make up the characters
/// of `whole`.
pub proof fn cut_keeps_characters(
    whole: &str,
    before: &str,
    inside: &str,
    after: &str,
    start: usize,
    end: usize,
)
    requires
        cuts(whole.spec_bytes(), start, end),
        before.spec_bytes() == whole.spec_bytes().subrange(0, start as int),
        inside.spec_bytes() == whole.spec_bytes().subrange(start as int, end as int),
        after.spec_bytes() == whole.spec_bytes().subrange(
            end as int,
            whole.spec_bytes().len() as int,
        ),
    ensures
        whole@ == before@ + inside@ + after@,
{
    encode_utf8_valid_utf8(whole@);
    encode_utf8_decode_utf8(whole@);
    encode_utf8_decode_utf8(before@);
    encode_utf8_decode_utf8(inside@);
    encode_utf8_decode_utf8(after@);
    lemma_decode_cut(whole.spec_bytes(), start as int, end as int);
}

/// A text is determined by its bytes: two texts with the same bytes have the
/// same characters.
pub proof fn bytes_determine_text(a: &str, b: &str)
    requires
        a.spec_bytes() == b.spec_bytes(),
    ensures
        a@ == b@,
{
    encode_utf8_decode_utf8(a@);
    encode_utf8_decode_utf8(b@);
}

/// The bytes of a character are the bytes of the text that holds this
/// character and no other.
pub proof fn char_as_text(c: char)
    ensures
        encode_utf8(seq![c]) == encode_scalar(c as u32),
        valid_utf8(encode_scalar(c as u32)),
{
    reveal_with_fuel(encode_utf8, 2);
    assert(encode_utf8(seq![c]) =~= encode_scalar(c as u32));
    encode_utf8_valid_utf8(seq![c]);
}

/// The bytes of two texts, one after the other, are the bytes of the texts
/// joined.
pub proof fn lemma_encode_joined(first: Seq<char>, second: Seq<char>)
    ensures
        encode_utf8(first + second) == encode_utf8(first) + encode_utf8(second),
    decreases first.len(),
{
    if first.len() == 0 {
        assert(first + second =~= second);
        assert(encode_utf8(first) + encode_utf8(second) =~= encode_utf8(second));
    } else {
        assert((first + second).drop_first() =~= first.drop_first() + second);
        lemma_encode_joined(first.drop_first(), second);
        assert(encode_utf8(first + second) =~= encode_utf8(first) + encode_utf8(second));
    }
}

/// A text with a character has a byte.
proof fn lemma_encoding_not_empty(text: Seq<char>)
    requires
        text.len() > 0,
    ensures
        encode_utf8(text).len() > 0,
{
}

/// A later character stands at a later byte.
proof fn lemma_byte_offset_grows(text: Seq<char>, earlier: int, later: int)
    requires
        0 <= earlier < later <= text.len(),
    ensures
        byte_offset(text, earlier) < byte_offset(text, later),
{
    let between = text.subrange(earlier, later);
    assert(text.take(later) =~= text.take(earlier) + between);
    lemma_encode_joined(text.take(earlier), between);
    lemma_encoding_not_empty(between);
}

/// Where the characters of `pattern` stand in `text`, its bytes stand in the
/// bytes of `text`, at the byte position of that character.
proof fn lemma_occurrence_in_bytes(text: Seq<char>, pattern: Seq<char>, index: int)
    requires
        occurs_at(text, pattern, index),
    ensures
        occurs_at(encode_utf8(text), encode_utf8(pattern), byte_offset(text, index)),
{
    let before = text.take(index);
    let after = text.skip(index + pattern.len());
    assert(text =~= before + pattern + after);
    lemma_encode_joined(before + pattern, after);
    lemma_encode_joined(before, pattern);
    let start = encode_utf8(before).len() as int;
    assert(encode_utf8(text).subrange(start, start + encode_utf8(pattern).len()) =~= encode_utf8(
        pattern,
    ));
}

/// Where the bytes of a non-empty `pattern` stand in the bytes of `text`,
/// its characters stand in `text`, at the character with that byte position.
proof fn lemma_occurrence_in_characters(text: Seq<char>, pattern: Seq<char>, at: int) -> (index:
    int)
    requires
        pattern.len() > 0,
        occurs_at(encode_utf8(text), encode_utf8(pattern), at),
    ensures
        occurs_at(text, pattern, index),
        byte_offset(text, index) == at,
{
    let bytes = encode_utf8(text);
    let needle = encode_utf8(pattern);
    let end = at + needle.len();
    lemma_encoding_not_empty(pattern);
    encode_utf8_valid_utf8(text);
    encode_utf8_valid_utf8(pattern);
    encode_utf8_decode_utf8(text);
    encode_utf8_decode_utf8(pattern);
    lemma_occurrence_on_boundaries(bytes, needle, at);
    lemma_decode_cut(bytes, at, end);
    let before = decode_utf8(bytes.subrange(0, at));
    let after = decode_utf8(bytes.subrange(end, bytes.len() as int));
    let index = before.len() as int;
    assert(text == before + pattern + after);
    assert(text.take(index) =~= before);
    assert(text.subrange(index, index + pattern.len()) =~= pattern);
    decode_utf8_encode_utf8(bytes.subrange(0, at));
    index
}

/// Finding a text by its bytes finds it by its characters: the first
/// occurrence of the bytes of a non-empty `pattern` in the bytes of `text`
/// lies at the byte position of the first occurrence of the characters of
/// `pattern` in `text`, and there is the one where there is the other.
pub proof fn first_occurrence_in_characters(text: Seq<char>, pattern: Seq<char>)
    requires
        pattern.len() > 0,
    ensures
        first_occurrence(encode_utf8(text), encode_utf8(pattern)) == match first_occurrence(
            text,
            pattern,
        ) {
            Some(index) => Some(byte_offset(text, index)),
            None => None,
        },
{
    let bytes = encode_utf8(text);
    let needle = encode_utf8(pattern);
    match first_occurrence(text, pattern) {
        Some(index) => {
            first_occurrence_is_first(text, pattern, index);
            lemma_occurrence_in_bytes(text, pattern, index);
            let at = byte_offset(text, index);
            assert forall|earlier: int| 0 <= earlier < at implies !occurs_at(
                bytes,
                needle,
                earlier,
            ) by {
                if occurs_at(bytes, needle, earlier) {
                    let other = lemma_occurrence_in_characters(text, pattern, earlier);
                    if other < index {
                        assert(!occurs_at(text, pattern, other));
                    } else if other > index {
                        lemma_byte_offset_grows(text, index, other);
                    }
                }
            }
            first_occurrence_is_first(bytes, needle, at);
        },
        None => {
            first_occurrence_is_first(text, pattern, 0);
            assert forall|any: int| !occurs_at(bytes, needle, any) by {
                if occurs_at(bytes, needle, any) {
                    let index = lemma_occurrence_in_characters(text, pattern, any);
                }
            }
            first_occurrence_is_first(bytes, needle, 0);
        },
    }
}

} // verus!
