//! What escaping means, stated on byte sequences and on texts, with the
//! laws that follow from the definitions alone.

use crate::table::{class_of, is_signal, Entity};
use vstd::prelude::*;

verus! {

/// What one input byte becomes: its entity, or the byte itself.
pub open spec fn escape_byte(b: u8) -> Seq<u8> {
    match class_of(b) {
        Some(e) => e.bytes(),
        None => seq![b],
    }
}

/// The escaped form of a byte sequence: every byte replaced by `escape_byte`,
/// in order.
pub open spec fn escaped(input: Seq<u8>) -> Seq<u8>
    decreases input.len(),
{
    if input.len() == 0 {
        Seq::empty()
    } else {
        escaped(input.drop_last()) + escape_byte(input.last())
    }
}

/// True when no byte of the sequence is replaced.
pub open spec fn is_clean(input: Seq<u8>) -> bool {
    forall|i: int| 0 <= i < input.len() ==> !is_signal(#[trigger] input[i])
}

/// The entity that stands for a character, if the character is replaced.
pub open spec fn char_class(c: char) -> Option<Entity> {
    if c == '"' {
        Some(Entity::Quot)
    } else if c == '&' {
        Some(Entity::Amp)
    } else if c == '\'' {
        Some(Entity::Apos)
    } else if c == '<' {
        Some(Entity::Lt)
    } else if c == '>' {
        Some(Entity::Gt)
    } else {
        None
    }
}

/// What one input character becomes: its entity, or the character itself.
pub open spec fn escape_char(c: char) -> Seq<char> {
    match char_class(c) {
        Some(e) => e.text(),
        None => seq![c],
    }
}

/// The escaped form of a text: every character replaced by `escape_char`,
/// in order.
pub open spec fn escaped_text(chars: Seq<char>) -> Seq<char>
    decreases chars.len(),
{
    if chars.len() == 0 {
        Seq::empty()
    } else {
        escaped_text(chars.drop_last()) + escape_char(chars.last())
    }
}

/// True when no character of the text is replaced.
pub open spec fn is_clean_text(chars: Seq<char>) -> bool {
    forall|i: int| 0 <= i < chars.len() ==> char_class(#[trigger] chars[i]) is None
}

/// Escaping a single byte gives `escape_byte` of it.
pub proof fn lemma_escaped_single(b: u8)
    ensures
        escaped(seq![b]) == escape_byte(b),
{
    let s = seq![b];
    assert(s.drop_last() =~= Seq::<u8>::empty());
    assert(escaped(s.drop_last()) =~= Seq::<u8>::empty());
    assert(escaped(s) =~= escape_byte(b));
}

/// Escaping distributes over concatenation.
pub proof fn lemma_escaped_concat(a: Seq<u8>, b: Seq<u8>)
    ensures
        escaped(a + b) == escaped(a) + escaped(b),
    decreases b.len(),
{
    if b.len() == 0 {
        assert(a + b =~= a);
        assert(escaped(a) + escaped(b) =~= escaped(a));
    } else {
        lemma_escaped_concat(a, b.drop_last());
        assert((a + b).drop_last() =~= a + b.drop_last());
        assert((a + b).last() == b.last());
        assert(escaped(a + b) =~= escaped(a) + escaped(b));
    }
}

/// Input without signal bytes is its own escaped form.
pub proof fn lemma_escaped_clean(input: Seq<u8>)
    requires
        is_clean(input),
    ensures
        escaped(input) == input,
    decreases input.len(),
{
    if input.len() == 0 {
        assert(escaped(input) =~= input);
    } else {
        lemma_escaped_clean(input.drop_last());
        assert(!is_signal(input.last()));
        assert(escaped(input) =~= input);
    }
}

/// Escaping the empty input gives the empty output.
pub proof fn lemma_escaped_empty()
    ensures
        escaped(Seq::<u8>::empty()) == Seq::<u8>::empty(),
        escaped_text(Seq::<char>::empty()) == Seq::<char>::empty(),
{
}

/// Each signal byte alone becomes exactly its entity.
pub proof fn lemma_escaped_signal(b: u8)
    requires
        is_signal(b),
    ensures
        class_of(b) is Some,
        escaped(seq![b]) == class_of(b).unwrap().bytes(),
{
    lemma_escaped_single(b);
}

/// Escaping a single character gives `escape_char` of it.
pub proof fn lemma_escaped_text_single(c: char)
    ensures
        escaped_text(seq![c]) == escape_char(c),
{
    let s = seq![c];
    assert(s.drop_last() =~= Seq::<char>::empty());
    assert(escaped_text(s.drop_last()) =~= Seq::<char>::empty());
    assert(escaped_text(s) =~= escape_char(c));
}

/// Each of the five signal characters alone becomes exactly its entity.
pub proof fn lemma_fixed_mapping()
    ensures
        escaped_text(seq!['"']) == seq!['&', 'q', 'u', 'o', 't', ';'],
        escaped_text(seq!['&']) == seq!['&', 'a', 'm', 'p', ';'],
        escaped_text(seq!['\'']) == seq!['&', '#', '0', '3', '9', ';'],
        escaped_text(seq!['<']) == seq!['&', 'l', 't', ';'],
        escaped_text(seq!['>']) == seq!['&', 'g', 't', ';'],
{
    lemma_escaped_text_single('"');
    lemma_escaped_text_single('&');
    lemma_escaped_text_single('\'');
    lemma_escaped_text_single('<');
    lemma_escaped_text_single('>');
}

/// Escaping a text distributes over concatenation.
pub proof fn lemma_escaped_text_concat(a: Seq<char>, b: Seq<char>)
    ensures
        escaped_text(a + b) == escaped_text(a) + escaped_text(b),
    decreases b.len(),
{
    if b.len() == 0 {
        assert(a + b =~= a);
        assert(escaped_text(a) + escaped_text(b) =~= escaped_text(a));
    } else {
        lemma_escaped_text_concat(a, b.drop_last());
        assert((a + b).drop_last() =~= a + b.drop_last());
        assert((a + b).last() == b.last());
        assert(escaped_text(a + b) =~= escaped_text(a) + escaped_text(b));
    }
}

/// Text without signal characters is its own escaped form.
pub proof fn lemma_escaped_text_clean(chars: Seq<char>)
    requires
        is_clean_text(chars),
    ensures
        escaped_text(chars) == chars,
    decreases chars.len(),
{
    if chars.len() == 0 {
        assert(escaped_text(chars) =~= chars);
    } else {
        lemma_escaped_text_clean(chars.drop_last());
        assert(char_class(chars.last()) is None);
        assert(escaped_text(chars) =~= chars);
    }
}

/// The escaped form of a range is the escaped forms of its two parts, joined.
pub proof fn lemma_escaped_split(input: Seq<u8>, a: int, b: int, c: int)
    requires
        0 <= a <= b <= c <= input.len(),
    ensures
        escaped(input.subrange(a, c)) == escaped(input.subrange(a, b)) + escaped(
            input.subrange(b, c),
        ),
{
    assert(input.subrange(a, c) =~= input.subrange(a, b) + input.subrange(b, c));
    lemma_escaped_concat(input.subrange(a, b), input.subrange(b, c));
}

/// A clean range stays clean when a byte that is not a signal byte is added
/// at its end.
pub proof fn lemma_clean_extend(input: Seq<u8>, a: int, b: int)
    requires
        0 <= a <= b < input.len(),
        is_clean(input.subrange(a, b)),
        !is_signal(input[b]),
    ensures
        is_clean(input.subrange(a, b + 1)),
{
    let wide = input.subrange(a, b + 1);
    assert forall|i: int| 0 <= i < wide.len() implies !is_signal(#[trigger] wide[i]) by {
        if i < b - a {
            assert(wide[i] == input.subrange(a, b)[i]);
        }
    }
}

/// A clean range stays clean when it is extended over bytes none of which is
/// a signal byte.
pub proof fn lemma_clean_extend_to(input: Seq<u8>, a: int, b: int, c: int)
    requires
        0 <= a <= b <= c <= input.len(),
        is_clean(input.subrange(a, b)),
        forall|k: int| b <= k < c ==> !is_signal(#[trigger] input[k]),
    ensures
        is_clean(input.subrange(a, c)),
{
    let wide = input.subrange(a, c);
    assert forall|i: int| 0 <= i < wide.len() implies !is_signal(#[trigger] wide[i]) by {
        if i < b - a {
            assert(wide[i] == input.subrange(a, b)[i]);
        } else {
            assert(wide[i] == input[a + i]);
        }
    }
}

} // verus!
