//! The two vector tiers. A chunk of 16 or 32 bytes is compared against the
//! signal bytes lane by lane, which gives one mask bit per lane, and the
//! mask steers the scan. The compare step is written in portable code, one
//! lane after the other; what it returns is what a vector compare and a
//! move-mask return.

use crate::buffer::Buffer;
use crate::encoding::lemma_text_from_bytes;
use crate::fallback;
use crate::model::{escaped, escaped_text, is_clean, lemma_clean_extend_to, lemma_escaped_split};
use crate::naive;
use crate::table::is_signal;
use vstd::prelude::*;
use vstd::std_specs::bits::axiom_u32_trailing_zeros;
use vstd::string::StringSliceAdditionalSpecFns;
use vstd::utf8::*;

verus! {

/// Lanes of the narrow tier.
pub const NARROW_LANES: usize = 16;

/// Lanes of the wide tier.
pub const WIDE_LANES: usize = 32;

/// Bit `k` of a lane mask.
pub open spec fn bit(m: u32, k: u32) -> bool {
    (m >> k) & 1 == 1
}

/// What the compare step owes: bit `k` is set exactly when lane `k` is
/// inside the chunk and holds a signal byte.
pub open spec fn is_lane_mask(mask: u32, input: Seq<u8>, at: int, lanes: int) -> bool {
    forall|k: u32| k < 32 ==> #[trigger] bit(mask, k) == (k < lanes && is_signal(input[at + k]))
}

proof fn lemma_no_bits(k: u32)
    by (bit_vector)
    requires
        k < 32,
    ensures
        !bit(0u32, k),
{
}

proof fn lemma_set_bit(m: u32, k: u32, j: u32)
    by (bit_vector)
    requires
        k < 32,
        j < 32,
    ensures
        bit(m | (1u32 << k), j) == (bit(m, j) || j == k),
{
}

proof fn lemma_clear_bit(m: u32, k: u32, j: u32)
    by (bit_vector)
    requires
        k < 32,
        j < 32,
    ensures
        bit(m & !(1u32 << k), j) == (bit(m, j) && j != k),
{
}

/// The test that every lane makes: equality with each of the five signal
/// bytes.
pub fn lane_hit(b: u8) -> (hit: bool)
    ensures
        hit == is_signal(b),
{
    b == 0x22 || b == 0x26 || b == 0x27 || b == 0x3c || b == 0x3e
}

/// The compare step on one chunk of `lanes` bytes at `at`: every lane is
/// tested against the five signal bytes, and the outcomes are gathered into
/// one mask, lane `k` in bit `k`.
pub fn lane_mask(bytes: &[u8], at: usize, lanes: usize) -> (mask: u32)
    requires
        lanes <= 32,
        at + lanes <= bytes@.len(),
    ensures
        is_lane_mask(mask, bytes@, at as int, lanes as int),
{
    let total: usize = bytes.len();
    let mut mask: u32 = 0;
    let mut k: u32 = 0;
    proof {
        assert forall|j: u32| j < 32 implies #[trigger] bit(mask, j) == (j < k && is_signal(
            bytes@[at + j],
        )) by {
            lemma_no_bits(j);
        }
    }
    while (k as usize) < lanes
        invariant
            lanes <= 32,
            k <= lanes,
            at + lanes <= bytes@.len(),
            total == bytes@.len(),
            is_lane_mask(mask, bytes@, at as int, k as int),
        decreases lanes - k,
    {
        let b: u8 = bytes[at + k as usize];
        let ghost prev = mask;
        if lane_hit(b) {
            mask = mask | (1u32 << k);
            proof {
                assert forall|j: u32| j < 32 implies #[trigger] bit(mask, j) == (j < k + 1
                    && is_signal(bytes@[at + j])) by {
                    lemma_set_bit(prev, k, j);
                    assert(bit(prev, j) == (j < k && is_signal(bytes@[at + j])));
                }
            }
        } else {
            proof {
                assert forall|j: u32| j < 32 implies #[trigger] bit(mask, j) == (j < k + 1
                    && is_signal(bytes@[at + j])) by {
                    assert(bit(prev, j) == (j < k && is_signal(bytes@[at + j])));
                }
            }
        }
        k = k + 1;
    }
    mask
}

/// The scan that both vector tiers share. A chunk of `lanes` bytes is
/// compared at once. An empty mask lets the whole chunk join the pending
/// run. Otherwise each set bit, lowest first, ends a run and is replaced by
/// its entity. What is left behind the last whole chunk goes to the
/// portable scanner.
pub fn scan(feed: &str, buf: &mut Buffer, lanes: usize)
    requires
        0 < lanes <= 32,
    ensures
        final(buf).bytes() == old(buf).bytes() + escaped(feed.spec_bytes()),
        final(buf)@ == old(buf)@ + escaped_text(feed@),
{
    let bytes = feed.as_bytes();
    let end: usize = bytes.len();
    let ghost input = feed.spec_bytes();
    let ghost before = buf.bytes();
    let mut run: usize = 0;
    let mut pos: usize = 0;
    proof {
        encode_utf8_valid_utf8(feed@);
        assert(input.subrange(0, 0) =~= Seq::<u8>::empty());
        assert(before + escaped(input.subrange(0, 0)) =~= before);
    }
    while end - pos >= lanes
        invariant
            0 < lanes <= 32,
            bytes@ == input,
            input == feed.spec_bytes(),
            valid_utf8(input),
            end == input.len(),
            run <= pos <= end,
            is_clean(input.subrange(run as int, pos as int)),
            is_char_boundary(input, run as int),
            buf.bytes() == before + escaped(input.subrange(0, run as int)),
        decreases end - pos,
    {
        let mut mask: u32 = lane_mask(bytes, pos, lanes);
        let ghost mut done: int = 0;
        while mask != 0
            invariant
                0 < lanes <= 32,
                bytes@ == input,
                input == feed.spec_bytes(),
                valid_utf8(input),
                end == input.len(),
                pos + lanes <= end,
                0 <= done <= lanes,
                run <= pos + done,
                forall|k: u32|
                    k < 32 ==> #[trigger] bit(mask, k) == (done <= k < lanes && is_signal(
                        input[pos + k],
                    )),
                is_clean(input.subrange(run as int, pos + done)),
                is_char_boundary(input, run as int),
                buf.bytes() == before + escaped(input.subrange(0, run as int)),
            decreases lanes - done,
        {
            proof {
                axiom_u32_trailing_zeros(mask);
            }
            let first: u32 = mask.trailing_zeros();
            assert(bit(mask, first));
            let at: usize = pos + first as usize;
            proof {
                assert forall|k: int| pos + done <= k < at implies !is_signal(
                    #[trigger] input[k],
                ) by {
                    let j = (k - pos) as u32;
                    assert((mask >> j) & 1u32 == 0u32);
                    assert(!bit(mask, j));
                }
                lemma_clean_extend_to(input, run as int, pos + done, at as int);
            }
            let next: usize = naive::substitute(feed, buf, run, at);
            let ghost prev = mask;
            mask = mask & !(1u32 << first);
            proof {
                lemma_escaped_split(input, 0, run as int, next as int);
                assert(buf.bytes() =~= before + escaped(input.subrange(0, next as int)));
                assert(input.subrange(next as int, next as int) =~= Seq::<u8>::empty());
                assert forall|k: u32| k < 32 implies #[trigger] bit(mask, k) == (first + 1 <= k
                    < lanes && is_signal(input[pos + k])) by {
                    lemma_clear_bit(prev, first, k);
                    assert(bit(prev, k) == (done <= k < lanes && is_signal(input[pos + k])));
                    if k < first {
                        assert((prev >> k) & 1u32 == 0u32);
                    }
                }
                done = first + 1;
            }
            run = next;
        }
        proof {
            assert forall|k: int| pos + done <= k < pos + lanes implies !is_signal(
                #[trigger] input[k],
            ) by {
                let j = (k - pos) as u32;
                lemma_no_bits(j);
                assert(bit(mask, j) == (done <= j < lanes && is_signal(input[pos + j])));
            }
            lemma_clean_extend_to(input, run as int, pos + done, pos + lanes);
        }
        pos = pos + lanes;
    }
    fallback::resume(feed, buf, run, pos);
    proof {
        lemma_escaped_split(input, 0, run as int, end as int);
        assert(input.subrange(0, end as int) =~= input);
        assert(buf.bytes() =~= before + escaped(input));
        lemma_text_from_bytes(old(buf)@, feed@, buf@);
    }
}

/// The narrow vector tier: chunks of 16 bytes.
pub fn escape_narrow(feed: &str, buf: &mut Buffer)
    ensures
        final(buf).bytes() == old(buf).bytes() + escaped(feed.spec_bytes()),
        final(buf)@ == old(buf)@ + escaped_text(feed@),
{
    scan(feed, buf, NARROW_LANES);
}

/// The wide vector tier: chunks of 32 bytes.
pub fn escape_wide(feed: &str, buf: &mut Buffer)
    ensures
        final(buf).bytes() == old(buf).bytes() + escaped(feed.spec_bytes()),
        final(buf)@ == old(buf)@ + escaped_text(feed@),
{
    scan(feed, buf, WIDE_LANES);
}

} // verus!
