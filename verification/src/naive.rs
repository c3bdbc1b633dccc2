//! The reference scanner, and the byte-wise steps that the other scanners
//! fall back on.

use crate::buffer::Buffer;
use crate::encoding::{lemma_boundary_after_ascii, lemma_text_from_bytes};
use crate::model::{
    escaped, escaped_text, is_clean, lemma_clean_extend, lemma_escaped_clean,
    lemma_escaped_single, lemma_escaped_split,
};
use crate::table::{classify, is_signal};
use vstd::prelude::*;
use vstd::string::StringSliceAdditionalSpecFns;
use vstd::utf8::*;

verus! {

/// Copies the pending run `start..at` and then writes the entity of the
/// signal byte at `at`. The next run starts behind that byte.
pub fn substitute(feed: &str, buf: &mut Buffer, start: usize, at: usize) -> (next: usize)
    requires
        start <= at < feed.spec_bytes().len(),
        is_clean(feed.spec_bytes().subrange(start as int, at as int)),
        is_signal(feed.spec_bytes()[at as int]),
        is_char_boundary(feed.spec_bytes(), start as int),
    ensures
        next == at + 1,
        is_char_boundary(feed.spec_bytes(), next as int),
        final(buf).bytes() == old(buf).bytes() + escaped(
            feed.spec_bytes().subrange(start as int, next as int),
        ),
{
    let bytes = feed.as_bytes();
    let ghost input = feed.spec_bytes();
    proof {
        encode_utf8_valid_utf8(feed@);
        lemma_boundary_after_ascii(input, at as int);
    }
    buf.push_range(feed, start, at);
    match classify(bytes[at]) {
        Some(entity) => {
            buf.push_str(entity.as_str());
            proof {
                lemma_escaped_clean(input.subrange(start as int, at as int));
                lemma_escaped_single(input[at as int]);
                assert(input.subrange(at as int, at + 1) =~= seq![input[at as int]]);
                lemma_escaped_split(input, start as int, at as int, at + 1);
            }
        },
        // The byte at `at` is a signal byte: it has an entity.
        None => {},
    }
    at + 1
}

/// Walks the bytes `from..to` one by one. `start` is where the pending run
/// began; the result is where it begins afterwards.
pub fn proceed(feed: &str, buf: &mut Buffer, start: usize, from: usize, to: usize) -> (next: usize)
    requires
        start <= from <= to <= feed.spec_bytes().len(),
        is_clean(feed.spec_bytes().subrange(start as int, from as int)),
        is_char_boundary(feed.spec_bytes(), start as int),
    ensures
        start <= next <= to,
        next == start || (from < next && is_signal(feed.spec_bytes()[next - 1])),
        is_clean(feed.spec_bytes().subrange(next as int, to as int)),
        is_char_boundary(feed.spec_bytes(), next as int),
        final(buf).bytes() == old(buf).bytes() + escaped(
            feed.spec_bytes().subrange(start as int, next as int),
        ),
{
    let bytes = feed.as_bytes();
    let ghost input = feed.spec_bytes();
    let ghost before = buf.bytes();
    let mut run: usize = start;
    let mut pos: usize = from;
    proof {
        assert(input.subrange(start as int, start as int) =~= Seq::<u8>::empty());
        assert(before + escaped(input.subrange(start as int, start as int)) =~= before);
    }
    while pos < to
        invariant
            bytes@ == input,
            input == feed.spec_bytes(),
            start <= run <= pos <= to <= input.len(),
            from <= pos,
            run == start || (from < run && is_signal(input[run - 1])),
            is_clean(input.subrange(run as int, pos as int)),
            is_char_boundary(input, run as int),
            buf.bytes() == before + escaped(input.subrange(start as int, run as int)),
        decreases to - pos,
    {
        let b: u8 = bytes[pos];
        if classify(b).is_some() {
            let next: usize = substitute(feed, buf, run, pos);
            proof {
                lemma_escaped_split(input, start as int, run as int, next as int);
                assert(buf.bytes() =~= before + escaped(input.subrange(start as int, next as int)));
                assert(input.subrange(next as int, next as int) =~= Seq::<u8>::empty());
            }
            run = next;
        } else {
            proof {
                lemma_clean_extend(input, run as int, pos as int);
            }
        }
        pos = pos + 1;
    }
    run
}

/// Copies the last run, `start` to the end of the input.
pub fn finish(feed: &str, buf: &mut Buffer, start: usize)
    requires
        start <= feed.spec_bytes().len(),
        is_clean(feed.spec_bytes().subrange(start as int, feed.spec_bytes().len() as int)),
        is_char_boundary(feed.spec_bytes(), start as int),
    ensures
        final(buf).bytes() == old(buf).bytes() + escaped(
            feed.spec_bytes().subrange(start as int, feed.spec_bytes().len() as int),
        ),
{
    let end: usize = feed.as_bytes().len();
    proof {
        encode_utf8_valid_utf8(feed@);
        is_char_boundary_start_end_of_seq(feed.spec_bytes());
        lemma_escaped_clean(feed.spec_bytes().subrange(start as int, end as int));
    }
    buf.push_range(feed, start, end);
}

/// The reference scanner: one byte at a time, with no shortcut. Every other
/// scanner has to produce what this one produces.
pub fn escape(feed: &str, buf: &mut Buffer)
    ensures
        final(buf).bytes() == old(buf).bytes() + escaped(feed.spec_bytes()),
        final(buf)@ == old(buf)@ + escaped_text(feed@),
{
    let end: usize = feed.as_bytes().len();
    let ghost input = feed.spec_bytes();
    proof {
        encode_utf8_valid_utf8(feed@);
        assert(input.subrange(0, 0) =~= Seq::<u8>::empty());
    }
    let start: usize = proceed(feed, buf, 0, 0, end);
    finish(feed, buf, start);
    proof {
        lemma_escaped_split(input, 0, start as int, end as int);
        assert(input.subrange(0, end as int) =~= input);
        assert(buf.bytes() =~= old(buf).bytes() + escaped(input));
        lemma_text_from_bytes(old(buf)@, feed@, buf@);
    }
}

} // verus!
