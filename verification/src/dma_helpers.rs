//! Split of a DMA copy into an unaligned head, whole 64-bit words and an unaligned tail.

use vstd::prelude::*;

verus! {

/// Precomputed values of a DMA copy of `count` bytes from `src` to `dst`.
pub struct DmaValues {
    /// `dst` rounded down to a multiple of 8.
    pub dst64: u64,
    /// `src` rounded down to a multiple of 8.
    pub src64: u64,
    /// `src` modulo 8.
    pub src_offset: u64,
    /// `dst` modulo 8.
    pub dst_offset: u64,
    /// Bytes copied before `dst` reaches a multiple of 8.
    pub pre_count: u64,
    /// Bytes copied after the last whole destination word.
    pub post_count: u64,
    /// Bytes copied as whole destination words.
    pub memcpy_count: u64,
    /// 1 when the head crosses into the next source word, 0 otherwise.
    pub src64_inc_by_pre: u64,
    /// The source offset within its word after the head.
    pub src_offset_after_pre: u64,
}

/// Namespace of the DMA helper computations.
pub struct DmaHelpers {}

/// Bytes of the head of a copy to `dst` of `count` bytes: up to the next multiple of 8,
/// at most `count`, and none when `dst` is aligned.
pub open spec fn spec_pre_count(dst: u64, count: nat) -> nat {
    if dst % 8 > 0 {
        if 8 - dst % 8 <= count {
            (8 - dst % 8) as nat
        } else {
            count
        }
    } else {
        0
    }
}

impl DmaHelpers {
    /// Splits a copy of `count` bytes from `src` to `dst`: the head that brings `dst` to a
    /// multiple of 8, the whole words after it, and the tail of fewer than 8 bytes.
    pub fn precalculate_dma_values(dst: u64, src: u64, count: usize) -> (v: DmaValues)
        ensures
            v.dst64 == dst - dst % 8,
            v.src64 == src - src % 8,
            v.dst_offset == dst % 8,
            v.src_offset == src % 8,
            v.pre_count == spec_pre_count(dst, count as nat),
            v.post_count == (count - v.pre_count) % 8,
            v.memcpy_count == count - v.pre_count - v.post_count,
            v.src64_inc_by_pre == (if dst % 8 > 0 && src % 8 + v.pre_count >= 8 { 1int } else { 0int }),
            v.src_offset_after_pre == (src % 8 + v.pre_count) % 8,
    {
        let dst64 = dst & !0x07u64;
        let src64 = src & !0x07u64;
        let dst_offset = dst & 0x07u64;
        let src_offset = src & 0x07u64;
        assert(dst & !0x07u64 == dst - dst % 8 && dst & 0x07u64 == dst % 8) by (bit_vector);
        assert(src & !0x07u64 == src - src % 8 && src & 0x07u64 == src % 8) by (bit_vector);
        let count64 = count as u64;
        let use_pre = dst_offset > 0;
        let pre_count = if use_pre {
            if 8 - dst_offset <= count64 {
                8 - dst_offset
            } else {
                count64
            }
        } else {
            0
        };
        let post_count = (count64 - pre_count) % 8;
        let memcpy_count = count64 - pre_count - post_count;
        let src64_inc_by_pre = if use_pre && (src_offset + pre_count) >= 8 {
            1
        } else {
            0
        };
        let src_offset_after_pre = (src_offset + pre_count) % 8;
        DmaValues {
            dst64,
            src64,
            src_offset,
            dst_offset,
            pre_count,
            post_count,
            memcpy_count,
            src64_inc_by_pre,
            src_offset_after_pre,
        }
    }
}

/// The three parts of a copy cover it exactly: the whole-word part is a multiple of 8,
/// the tail is shorter than a word, and after a head the destination is word aligned
/// (unless the head already takes the whole copy).
pub proof fn lemma_dma_split(dst: u64, count: nat)
    ensures
        ({
            let pre = spec_pre_count(dst, count);
            let post = (count - pre) % 8;
            let mid = count - pre - post;
            &&& pre <= count
            &&& pre < 8
            &&& post < 8
            &&& mid >= 0
            &&& mid % 8 == 0
            &&& pre + mid + post == count
            &&& (pre > 0 && pre < count ==> (dst + pre) % 8 == 0)
            &&& (dst % 8 == 0 ==> pre == 0)
        }),
{
}

} // verus!
