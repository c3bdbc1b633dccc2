//! How escaping and UTF-8 go together: escaping bytes and escaping
//! characters are the same thing, and the places where a scanner cuts its
//! input are character boundaries.

use crate::model::{
    char_class, escape_char, escaped, escaped_text, is_clean, lemma_escaped_clean,
    lemma_escaped_concat, lemma_escaped_single, lemma_escaped_text_single,
};
use crate::table::{class_of, Entity};
use vstd::prelude::*;
use vstd::utf8::*;

verus! {

/// The UTF-8 encoding of a concatenation is the concatenation of the
/// encodings.
pub proof fn lemma_encode_concat(a: Seq<char>, b: Seq<char>)
    ensures
        encode_utf8(a + b) == encode_utf8(a) + encode_utf8(b),
    decreases a.len(),
{
    if a.len() == 0 {
        assert(a + b =~= b);
        assert(encode_utf8(a) + encode_utf8(b) =~= encode_utf8(b));
    } else {
        lemma_encode_concat(a.drop_first(), b);
        assert((a + b).drop_first() =~= a.drop_first() + b);
        assert((a + b)[0] == a[0]);
        assert(encode_utf8(a + b) =~= encode_utf8(a) + encode_utf8(b));
    }
}

/// The encoding of a single character is the encoding of its scalar value.
pub proof fn lemma_encode_single(c: char)
    ensures
        encode_utf8(seq![c]) == encode_scalar(c as u32),
{
    let s = seq![c];
    assert(s.drop_first() =~= Seq::<char>::empty());
    assert(encode_utf8(s.drop_first()) =~= Seq::<u8>::empty());
    assert(encode_utf8(s) =~= encode_scalar(c as u32));
}

/// An entity's bytes are the UTF-8 encoding of its text.
pub proof fn lemma_entity_bytes(e: Entity)
    ensures
        encode_utf8(e.text()) == e.bytes(),
{
    let t = e.text();
    assert(is_ascii_chars(t));
    is_ascii_chars_encode_utf8(t);
    assert(encode_utf8(t) =~= e.bytes());
}

proof fn lemma_high_bytes(x: u8)
    by (bit_vector)
    ensures
        0x80u8 | x >= 0x80,
        0xC0u8 | x >= 0x80,
        0xE0u8 | x >= 0x80,
        0xF0u8 | x >= 0x80,
{
}

proof fn lemma_low_byte(s: u32)
    by (bit_vector)
    requires
        s <= 0x7f,
    ensures
        (s & 0x7F) as u8 == s,
{
}

/// A character is replaced exactly when its encoding is one signal byte, and
/// no byte of the encoding of another character is a signal byte.
pub proof fn lemma_scalar_bytes(c: char)
    ensures
        char_class(c) is Some ==> encode_scalar(c as u32) == seq![(c as u32) as u8]
            && (c as u32) < 0x80 && class_of((c as u32) as u8) == char_class(c),
        char_class(c) is None ==> is_clean(encode_scalar(c as u32)),
{
    let s = c as u32;
    char_is_scalar(c);
    if has_width_1_encoding(s) {
        lemma_low_byte(s);
        assert(encode_scalar(s) =~= seq![s as u8]);
    } else if has_width_2_encoding(s) {
        lemma_high_bytes(((s >> 6) & 0x1F) as u8);
        lemma_high_bytes((s & 0x3F) as u8);
    } else if has_width_3_encoding(s) {
        lemma_high_bytes(((s >> 12) & 0x0F) as u8);
        lemma_high_bytes(((s >> 6) & 0x3F) as u8);
        lemma_high_bytes((s & 0x3F) as u8);
    } else {
        lemma_high_bytes(((s >> 18) & 0x7) as u8);
        lemma_high_bytes(((s >> 12) & 0x3F) as u8);
        lemma_high_bytes(((s >> 6) & 0x3F) as u8);
        lemma_high_bytes((s & 0x3F) as u8);
    }
}

/// Escaping one character and encoding the result gives what escaping the
/// character's encoding gives.
pub proof fn lemma_escape_char_bytes(c: char)
    ensures
        encode_utf8(escape_char(c)) == escaped(encode_scalar(c as u32)),
{
    lemma_scalar_bytes(c);
    match char_class(c) {
        Some(e) => {
            lemma_entity_bytes(e);
            lemma_escaped_single((c as u32) as u8);
        },
        None => {
            lemma_encode_single(c);
            lemma_escaped_clean(encode_scalar(c as u32));
        },
    }
}

/// Escaping commutes with UTF-8 encoding: escaping a text character by
/// character and encoding the result gives the same bytes as escaping the
/// encoded text byte by byte.
pub proof fn lemma_escaped_text_bytes(chars: Seq<char>)
    ensures
        encode_utf8(escaped_text(chars)) == escaped(encode_utf8(chars)),
    decreases chars.len(),
{
    if chars.len() == 0 {
        assert(encode_utf8(escaped_text(chars)) =~= Seq::<u8>::empty());
        assert(escaped(encode_utf8(chars)) =~= Seq::<u8>::empty());
    } else {
        let init = chars.drop_last();
        let c = chars.last();
        lemma_escaped_text_bytes(init);
        lemma_escape_char_bytes(c);
        lemma_encode_concat(escaped_text(init), escape_char(c));
        assert(chars =~= init + seq![c]);
        lemma_encode_concat(init, seq![c]);
        lemma_encode_single(c);
        lemma_escaped_concat(encode_utf8(init), encode_scalar(c as u32));
    }
}

/// A character of more than one byte passes through with all of its bytes.
pub proof fn lemma_multi_byte_unchanged(c: char)
    requires
        c as u32 >= 0x80,
    ensures
        escaped_text(seq![c]) == seq![c],
        escaped(encode_utf8(seq![c])) == encode_utf8(seq![c]),
        is_clean(encode_utf8(seq![c])),
{
    lemma_escaped_text_single(c);
    lemma_encode_single(c);
    lemma_scalar_bytes(c);
    lemma_escaped_clean(encode_scalar(c as u32));
}

/// Escaping valid UTF-8 gives valid UTF-8 that decodes to the escaped text:
/// a character that is not replaced keeps all of its bytes, in one piece.
pub proof fn lemma_escaped_valid(input: Seq<u8>)
    requires
        valid_utf8(input),
    ensures
        valid_utf8(escaped(input)),
        decode_utf8(escaped(input)) == escaped_text(decode_utf8(input)),
{
    let chars = decode_utf8(input);
    decode_utf8_encode_utf8(input);
    lemma_escaped_text_bytes(chars);
    encode_utf8_valid_utf8(escaped_text(chars));
    encode_utf8_decode_utf8(escaped_text(chars));
}

/// A text whose encoding is the encoding of `before` followed by the escaped
/// encoding of `feed` is `before` followed by the escaped `feed`.
pub proof fn lemma_text_from_bytes(before: Seq<char>, feed: Seq<char>, after: Seq<char>)
    requires
        encode_utf8(after) == encode_utf8(before) + escaped(encode_utf8(feed)),
    ensures
        after == before + escaped_text(feed),
{
    let expected = before + escaped_text(feed);
    lemma_escaped_text_bytes(feed);
    lemma_encode_concat(before, escaped_text(feed));
    encode_utf8_decode_utf8(after);
    encode_utf8_decode_utf8(expected);
}

/// Whichever scanners made them, two scans of one input that started from
/// the same contents ended with the same contents, and those are what the
/// reference scanner leaves.
pub proof fn lemma_scans_agree(
    before: Seq<char>,
    feed: Seq<char>,
    after_a: Seq<char>,
    after_b: Seq<char>,
)
    requires
        encode_utf8(after_a) == encode_utf8(before) + escaped(encode_utf8(feed)),
        encode_utf8(after_b) == encode_utf8(before) + escaped(encode_utf8(feed)),
    ensures
        after_a == after_b,
        after_a == before + escaped_text(feed),
{
    lemma_text_from_bytes(before, feed, after_a);
    lemma_text_from_bytes(before, feed, after_b);
}

/// Where two valid UTF-8 sequences are joined, the joint is a character
/// boundary of the whole.
pub proof fn lemma_boundary_at_joint(a: Seq<u8>, b: Seq<u8>)
    requires
        valid_utf8(a),
        valid_utf8(b),
    ensures
        valid_utf8(a + b),
        is_char_boundary(a + b, a.len() as int),
    decreases a.len(),
{
    valid_utf8_concat(a, b);
    if a.len() == 0 {
    } else {
        let rest = pop_first_scalar(a);
        assert(rest.len() < a.len());
        lemma_boundary_at_joint(rest, b);
        assert(pop_first_scalar(a + b) =~= rest + b);
        assert(length_of_first_scalar(a + b) == length_of_first_scalar(a));
    }
}

/// The position after a one-byte character that starts at a character
/// boundary is a character boundary again.
pub proof fn lemma_boundary_after_ascii(bytes: Seq<u8>, i: int)
    requires
        valid_utf8(bytes),
        0 <= i < bytes.len(),
        bytes[i] < 0x80,
    ensures
        is_char_boundary(bytes, i),
        is_char_boundary(bytes, i + 1),
{
    is_char_boundary_iff_not_is_continuation_byte(bytes, i);
    valid_utf8_split(bytes, i);
    let head = bytes.subrange(0, i);
    let tail = bytes.subrange(i, bytes.len() as int);
    assert(tail[0] == bytes[i]);
    assert(valid_first_scalar(tail));
    assert(length_of_first_scalar(tail) == 1);
    let one = tail.subrange(0, 1);
    let rest = pop_first_scalar(tail);
    assert(valid_utf8(rest));
    assert(valid_utf8(one)) by {
        reveal_with_fuel(valid_utf8, 2);
        assert(one[0] == bytes[i]);
        assert(pop_first_scalar(one) =~= Seq::<u8>::empty());
    }
    valid_utf8_concat(head, one);
    lemma_boundary_at_joint(head + one, rest);
    assert((head + one) + rest =~= bytes);
}

/// A character boundary of a text that lies inside a prefix cut at another
/// boundary is a character boundary of that prefix.
pub proof fn lemma_boundary_in_prefix(bytes: Seq<u8>, from: int, to: int)
    requires
        valid_utf8(bytes),
        0 <= from <= to <= bytes.len(),
        is_char_boundary(bytes, from),
        is_char_boundary(bytes, to),
    ensures
        valid_utf8(bytes.subrange(0, to)),
        is_char_boundary(bytes.subrange(0, to), from),
{
    valid_utf8_split(bytes, to);
    let head = bytes.subrange(0, to);
    if from == to {
        is_char_boundary_start_end_of_seq(head);
    } else {
        is_char_boundary_iff_not_is_continuation_byte(bytes, from);
        is_char_boundary_iff_not_is_continuation_byte(head, from);
        assert(head[from] == bytes[from]);
    }
}

} // verus!
