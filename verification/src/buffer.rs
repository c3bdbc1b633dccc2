//! The output buffer.

use crate::encoding::{lemma_boundary_in_prefix, lemma_encode_concat};
use vstd::prelude::*;
use vstd::std_specs::convert::FromSpecImpl;
use vstd::string::{StringExecFns, StringSliceAdditionalSpecFns};
use vstd::utf8::*;

verus! {

/// `String::clear` empties the string; std documents that it keeps the
/// allocation, of which nothing is stated here.
pub assume_specification[ String::clear ](s: &mut String)
    ensures
        final(s)@ == Seq::<char>::empty(),
;

/// Append-only sink for escaped output. It only ever holds complete text.
pub struct Buffer {
    inner: String,
}

impl View for Buffer {
    type V = Seq<char>;

    /// The text held so far.
    closed spec fn view(&self) -> Seq<char> {
        self.inner@
    }
}

impl From<String> for Buffer {
    /// Takes over the text of `s`, and its allocation.
    fn from(s: String) -> (b: Buffer)
        ensures
            b@ == s@,
    {
        Buffer { inner: s }
    }
}

impl FromSpecImpl<String> for Buffer {
    open spec fn obeys_from_spec() -> bool {
        true
    }

    closed spec fn from_spec(s: String) -> Buffer {
        Buffer { inner: s }
    }
}

impl Buffer {
    /// The bytes held so far: the UTF-8 encoding of the text.
    pub open spec fn bytes(&self) -> Seq<u8> {
        encode_utf8(self@)
    }

    /// The contents are valid UTF-8 at all times.
    pub proof fn lemma_valid(&self)
        ensures
            valid_utf8(self.bytes()),
            decode_utf8(self.bytes()) == self@,
    {
        encode_utf8_valid_utf8(self@);
        encode_utf8_decode_utf8(self@);
    }

    /// An empty buffer.
    pub fn new() -> (b: Buffer)
        ensures
            b@ == Seq::<char>::empty(),
    {
        Buffer { inner: String::new() }
    }

    /// Appends the text `s`.
    pub fn push_str(&mut self, s: &str)
        ensures
            final(self)@ == old(self)@ + s@,
            final(self).bytes() == old(self).bytes() + s.spec_bytes(),
    {
        proof {
            lemma_encode_concat(self@, s@);
        }
        self.inner.append(s);
    }

    /// Appends the bytes `from..to` of `feed` as they are. Both ends have to
    /// lie on character boundaries, so that the copy is complete text.
    pub fn push_range(&mut self, feed: &str, from: usize, to: usize)
        requires
            from <= to <= feed.spec_bytes().len(),
            is_char_boundary(feed.spec_bytes(), from as int),
            is_char_boundary(feed.spec_bytes(), to as int),
        ensures
            final(self).bytes() == old(self).bytes() + feed.spec_bytes().subrange(
                from as int,
                to as int,
            ),
            final(self)@ == old(self)@ + decode_utf8(
                feed.spec_bytes().subrange(from as int, to as int),
            ),
    {
        proof {
            encode_utf8_valid_utf8(feed@);
            lemma_boundary_in_prefix(feed.spec_bytes(), from as int, to as int);
        }
        let (head, _) = feed.split_at(to);
        let (_, run) = head.split_at(from);
        proof {
            assert(run.spec_bytes() =~= feed.spec_bytes().subrange(from as int, to as int));
            encode_utf8_decode_utf8(run@);
        }
        self.push_str(run);
    }

    /// The text held so far.
    pub fn as_str(&self) -> (s: &str)
        ensures
            s@ == self@,
    {
        self.inner.as_str()
    }

    /// Hands the accumulated text back, with its allocation.
    pub fn into_string(self) -> (s: String)
        ensures
            s@ == self@,
    {
        self.inner
    }

    /// Empties the buffer. The allocation is kept for the next use.
    pub fn clear(&mut self)
        ensures
            final(self)@ == Seq::<char>::empty(),
    {
        self.inner.clear();
    }

    /// Number of bytes held.
    pub fn len(&self) -> (n: usize)
        ensures
            n == self.bytes().len(),
    {
        self.inner.as_str().as_bytes().len()
    }

    /// True when nothing is held.
    pub fn is_empty(&self) -> (e: bool)
        ensures
            e == (self@.len() == 0),
    {
        self.inner.as_str().is_empty()
    }
}

} // verus!
