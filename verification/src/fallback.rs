//! The portable scanner. It tests eight bytes at once with word arithmetic
//! and looks at single bytes only where a word holds a signal byte.

use crate::buffer::Buffer;
use crate::encoding::lemma_text_from_bytes;
use crate::model::{escaped, escaped_text, is_clean, lemma_clean_extend_to, lemma_escaped_split};
use crate::naive;
use crate::table::is_signal;
use vstd::prelude::*;
use vstd::string::StringSliceAdditionalSpecFns;
use vstd::utf8::*;

verus! {

/// Number of bytes tested at once.
pub const WORD_BYTES: usize = 8;

/// `0x7f` in every byte.
pub const LOW_BITS: u64 = 0x7f7f_7f7f_7f7f_7f7f;

/// Byte `k` of a word, counted from the least significant one.
pub open spec fn lane(w: u64, k: u64) -> u8 {
    ((w >> (k * 8)) & 0xff) as u8
}

/// True when one of the eight bytes of the word is a signal byte.
pub open spec fn word_has_signal(w: u64) -> bool {
    is_signal(lane(w, 0)) || is_signal(lane(w, 1)) || is_signal(lane(w, 2)) || is_signal(
        lane(w, 3),
    ) || is_signal(lane(w, 4)) || is_signal(lane(w, 5)) || is_signal(lane(w, 6)) || is_signal(
        lane(w, 7),
    )
}

/// A word with the top bit set in every byte that is zero in `v`, and no
/// other bit set.
pub open spec fn zero_lanes(v: u64) -> u64 {
    !((((v & LOW_BITS) + LOW_BITS) as u64) | v | LOW_BITS)
}

/// The three tests that together find the five signal bytes: `"` and `&`
/// differ in one bit, so do `<` and `>`.
pub open spec fn signal_lanes(w: u64) -> u64 {
    zero_lanes((w | 0x0404_0404_0404_0404) ^ 0x2626_2626_2626_2626) | zero_lanes(
        w ^ 0x2727_2727_2727_2727,
    ) | zero_lanes((w | 0x0202_0202_0202_0202) ^ 0x3e3e_3e3e_3e3e_3e3e)
}

proof fn lemma_signal_lanes(w: u64)
    by (bit_vector)
    ensures
        signal_lanes(w) != 0 <==> word_has_signal(w),
{
}

proof fn lemma_low_sum(v: u64)
    by (bit_vector)
    ensures
        (v & LOW_BITS) + LOW_BITS <= 0xfefe_fefe_fefe_fefe,
{
}

fn find_zero_lanes(v: u64) -> (r: u64)
    ensures
        r == zero_lanes(v),
{
    proof {
        lemma_low_sum(v);
    }
    let sum: u64 = (v & LOW_BITS) + LOW_BITS;
    !(sum | v | LOW_BITS)
}

/// Tests eight bytes at once for a signal byte.
pub fn contains_signal(w: u64) -> (hit: bool)
    ensures
        hit == word_has_signal(w),
{
    proof {
        lemma_signal_lanes(w);
    }
    let quot_amp: u64 = find_zero_lanes((w | 0x0404_0404_0404_0404) ^ 0x2626_2626_2626_2626);
    let apos: u64 = find_zero_lanes(w ^ 0x2727_2727_2727_2727);
    let lt_gt: u64 = find_zero_lanes((w | 0x0202_0202_0202_0202) ^ 0x3e3e_3e3e_3e3e_3e3e);
    (quot_amp | apos | lt_gt) != 0
}

proof fn lemma_word_lanes(b0: u8, b1: u8, b2: u8, b3: u8, b4: u8, b5: u8, b6: u8, b7: u8, w: u64)
    by (bit_vector)
    requires
        w == (b0 as u64) | ((b1 as u64) << 8) | ((b2 as u64) << 16) | ((b3 as u64) << 24) | ((
        b4 as u64) << 32) | ((b5 as u64) << 40) | ((b6 as u64) << 48) | ((b7 as u64) << 56),
    ensures
        lane(w, 0) == b0,
        lane(w, 1) == b1,
        lane(w, 2) == b2,
        lane(w, 3) == b3,
        lane(w, 4) == b4,
        lane(w, 5) == b5,
        lane(w, 6) == b6,
        lane(w, 7) == b7,
{
}

/// Reads the eight bytes at `at` into one word, the first byte lowest.
pub fn load_word(bytes: &[u8], at: usize) -> (w: u64)
    requires
        at + 8 <= bytes@.len(),
    ensures
        forall|k: u64| 0 <= k < 8 ==> #[trigger] lane(w, k) == bytes@[at + k],
{
    let b0: u8 = bytes[at];
    let b1: u8 = bytes[at + 1];
    let b2: u8 = bytes[at + 2];
    let b3: u8 = bytes[at + 3];
    let b4: u8 = bytes[at + 4];
    let b5: u8 = bytes[at + 5];
    let b6: u8 = bytes[at + 6];
    let b7: u8 = bytes[at + 7];
    let w: u64 = (b0 as u64) | ((b1 as u64) << 8) | ((b2 as u64) << 16) | ((b3 as u64) << 24) | ((
    b4 as u64) << 32) | ((b5 as u64) << 40) | ((b6 as u64) << 48) | ((b7 as u64) << 56);
    proof {
        lemma_word_lanes(b0, b1, b2, b3, b4, b5, b6, b7, w);
    }
    w
}

/// Goes on with a scan at `from`, with a pending run that began at `start`,
/// up to the end of the input: word by word while a whole word is left, byte
/// by byte inside a word that holds a signal byte and through the rest.
pub fn resume(feed: &str, buf: &mut Buffer, start: usize, from: usize)
    requires
        start <= from <= feed.spec_bytes().len(),
        is_clean(feed.spec_bytes().subrange(start as int, from as int)),
        is_char_boundary(feed.spec_bytes(), start as int),
    ensures
        final(buf).bytes() == old(buf).bytes() + escaped(
            feed.spec_bytes().subrange(start as int, feed.spec_bytes().len() as int),
        ),
{
    let bytes = feed.as_bytes();
    let end: usize = bytes.len();
    let ghost input = feed.spec_bytes();
    let ghost before = buf.bytes();
    let mut run: usize = start;
    let mut pos: usize = from;
    proof {
        assert(input.subrange(start as int, start as int) =~= Seq::<u8>::empty());
        assert(before + escaped(input.subrange(start as int, start as int)) =~= before);
    }
    while end - pos >= WORD_BYTES
        invariant
            bytes@ == input,
            input == feed.spec_bytes(),
            end == input.len(),
            start <= run <= pos <= end,
            is_clean(input.subrange(run as int, pos as int)),
            is_char_boundary(input, run as int),
            buf.bytes() == before + escaped(input.subrange(start as int, run as int)),
        decreases end - pos,
    {
        let w: u64 = load_word(bytes, pos);
        if contains_signal(w) {
            let next: usize = naive::proceed(feed, buf, run, pos, pos + WORD_BYTES);
            proof {
                lemma_escaped_split(input, start as int, run as int, next as int);
                assert(buf.bytes() =~= before + escaped(input.subrange(start as int, next as int)));
            }
            run = next;
        } else {
            proof {
                assert forall|k: int| pos <= k < pos + 8 implies !is_signal(
                    #[trigger] input[k],
                ) by {
                    let d = (k - pos) as u64;
                    assert(lane(w, d) == input[pos + d]);
                }
                lemma_clean_extend_to(input, run as int, pos as int, pos + 8);
            }
        }
        pos = pos + WORD_BYTES;
    }
    let next: usize = naive::proceed(feed, buf, run, pos, end);
    proof {
        lemma_escaped_split(input, start as int, run as int, next as int);
        assert(buf.bytes() =~= before + escaped(input.subrange(start as int, next as int)));
    }
    naive::finish(feed, buf, next);
    proof {
        lemma_escaped_split(input, start as int, next as int, end as int);
        assert(buf.bytes() =~= before + escaped(input.subrange(start as int, end as int)));
    }
}

/// The portable scanner: the one that is used where no wider one can be.
pub fn escape(feed: &str, buf: &mut Buffer)
    ensures
        final(buf).bytes() == old(buf).bytes() + escaped(feed.spec_bytes()),
        final(buf)@ == old(buf)@ + escaped_text(feed@),
{
    let ghost input = feed.spec_bytes();
    proof {
        encode_utf8_valid_utf8(feed@);
        assert(input.subrange(0, 0) =~= Seq::<u8>::empty());
    }
    resume(feed, buf, 0, 0);
    proof {
        assert(input.subrange(0, input.len() as int) =~= input);
        lemma_text_from_bytes(old(buf)@, feed@, buf@);
    }
}

} // verus!
