//! Counting of DMA operations and the address ranges that a DMA copy touches.

use vstd::prelude::*;

verus! {

/// Whether a bus device only counts operations or also generates inputs.
#[derive(Debug, Clone, Copy, PartialEq, Eq, Structural)]
pub enum BusDeviceMode {
    /// Only count operations.
    Counter,
    /// Generate the inputs of the operations.
    InputGenerator,
}

/// Counters of DMA operations by the kind of rows they need.
pub struct DmaCounterInputGen {
    dma_pre_post_ops: usize,
    dma_ops: usize,
    dma_unaligned_ops: usize,
    dma_64_aligned_ops: usize,
    mode: BusDeviceMode,
}

impl DmaCounterInputGen {
    /// Operations that need a head or tail row.
    pub closed spec fn pre_post_ops(&self) -> nat {
        self.dma_pre_post_ops as nat
    }

    /// DMA operations seen.
    pub closed spec fn ops(&self) -> nat {
        self.dma_ops as nat
    }

    /// Whole words copied between differently aligned addresses.
    pub closed spec fn unaligned_ops(&self) -> nat {
        self.dma_unaligned_ops as nat
    }

    /// Whole words copied between equally aligned addresses.
    pub closed spec fn aligned_ops(&self) -> nat {
        self.dma_64_aligned_ops as nat
    }

    /// The mode of the device.
    pub closed spec fn spec_mode(&self) -> BusDeviceMode {
        self.mode
    }

    /// A device with all counters at zero.
    pub fn new(mode: BusDeviceMode) -> (r: DmaCounterInputGen)
        ensures
            r.pre_post_ops() == 0,
            r.ops() == 0,
            r.unaligned_ops() == 0,
            r.aligned_ops() == 0,
            r.spec_mode() == mode,
    {
        DmaCounterInputGen {
            dma_pre_post_ops: 0,
            dma_ops: 0,
            dma_unaligned_ops: 0,
            dma_64_aligned_ops: 0,
            mode,
        }
    }

    /// Operations that need a head or tail row.
    pub fn get_pre_post_ops(&self) -> (n: usize)
        ensures
            n == self.pre_post_ops(),
    {
        self.dma_pre_post_ops
    }

    /// DMA operations seen.
    pub fn get_ops(&self) -> (n: usize)
        ensures
            n == self.ops(),
    {
        self.dma_ops
    }

    /// Whole words copied between differently aligned addresses.
    pub fn get_unaligned_ops(&self) -> (n: usize)
        ensures
            n == self.unaligned_ops(),
    {
        self.dma_unaligned_ops
    }

    /// Whole words copied between equally aligned addresses.
    pub fn get_aligned_ops(&self) -> (n: usize)
        ensures
            n == self.aligned_ops(),
    {
        self.dma_64_aligned_ops
    }

    /// Counts one copy of `count` bytes. The offset of `src` within its word decides
    /// whether a head row is needed; the remaining bytes (at most up to the word end when
    /// there is a head) give a tail row when not a multiple of 8 and whole words otherwise,
    /// counted as aligned when both offsets agree.
    pub fn inst_count_memcpy(&mut self, dst: u64, src: u64, count: usize)
        requires
            old(self).ops() < usize::MAX,
            old(self).pre_post_ops() + 2 <= usize::MAX,
            old(self).unaligned_ops() + count / 8 <= usize::MAX,
            old(self).aligned_ops() + count / 8 <= usize::MAX,
        ensures
            ({
                let first_off = dst % 8;
                let second_off = src % 8;
                let remaining = if second_off > 0 {
                    if 8 - second_off <= count { (8 - second_off) as int } else { count as int }
                } else {
                    count as int
                };
                let pre = if count > 0 && second_off > 0 { 1int } else { 0int };
                let post = if count > 0 && remaining % 8 > 0 { 1int } else { 0int };
                let words = if count > 0 { remaining / 8 } else { 0 };
                &&& final(self).ops() == old(self).ops() + 1
                &&& final(self).pre_post_ops() == old(self).pre_post_ops() + pre + post
                &&& final(self).aligned_ops() == old(self).aligned_ops() + (if first_off == second_off { words } else { 0 })
                &&& final(self).unaligned_ops() == old(self).unaligned_ops() + (if first_off != second_off { words } else { 0 })
                &&& final(self).spec_mode() == old(self).spec_mode()
            }),
    {
        let src_offset = dst & 0x07u64;
        let dst_offset = src & 0x07u64;
        assert(dst & 0x07u64 == dst % 8) by (bit_vector);
        assert(src & 0x07u64 == src % 8) by (bit_vector);
        if count > 0 {
            assert(forall|x: usize| x >> 3 == #[trigger] (x / 8)) by (bit_vector);
            let remaining = if dst_offset > 0 {
                self.dma_pre_post_ops = self.dma_pre_post_ops + 1;
                let room = (8 - dst_offset) as usize;
                if room <= count {
                    room
                } else {
                    count
                }
            } else {
                count
            };
            assert(remaining / 8 <= count / 8) by {
                vstd::arithmetic::div_mod::lemma_div_is_ordered(remaining as int, count as int, 8);
            }
            if (remaining % 8) > 0 {
                self.dma_pre_post_ops = self.dma_pre_post_ops + 1;
            }
            if dst_offset == src_offset {
                self.dma_64_aligned_ops = self.dma_64_aligned_ops + (remaining >> 3);
            } else {
                self.dma_unaligned_ops = self.dma_unaligned_ops + (remaining >> 3);
            }
        }
        self.dma_ops = self.dma_ops + 1;
    }

    /// Combines two devices by summing their counters; the mode is that of `self`.
    pub fn add(self, other: Self) -> (r: DmaCounterInputGen)
        requires
            self.pre_post_ops() + other.pre_post_ops() <= usize::MAX,
            self.ops() + other.ops() <= usize::MAX,
            self.unaligned_ops() + other.unaligned_ops() <= usize::MAX,
            self.aligned_ops() + other.aligned_ops() <= usize::MAX,
        ensures
            r.pre_post_ops() == self.pre_post_ops() + other.pre_post_ops(),
            r.ops() == self.ops() + other.ops(),
            r.unaligned_ops() == self.unaligned_ops() + other.unaligned_ops(),
            r.aligned_ops() == self.aligned_ops() + other.aligned_ops(),
            r.spec_mode() == self.spec_mode(),
    {
        DmaCounterInputGen {
            dma_pre_post_ops: self.dma_pre_post_ops + other.dma_pre_post_ops,
            dma_ops: self.dma_ops + other.dma_ops,
            dma_unaligned_ops: self.dma_unaligned_ops + other.dma_unaligned_ops,
            dma_64_aligned_ops: self.dma_64_aligned_ops + other.dma_64_aligned_ops,
            mode: self.mode,
        }
    }
}

/// The last aligned 32-bit address of a range of `count` bytes at `addr`.
pub open spec fn last_aligned_addr(addr: u64, count: usize) -> u32 {
    ((addr + count - 1) as u64 as u32) & !0x07u32
}

/// The first aligned 32-bit address of a range at `addr`.
pub open spec fn first_aligned_addr(addr: u64) -> u32 {
    (addr & !0x07u64) as u32
}

/// Whether the predicate `skip` answered `true` for every aligned address from `lo` up to
/// `hi` in steps of 8.
pub open spec fn all_skipped<F: Fn(u32) -> bool>(skip: F, lo: u32, hi: u32) -> bool {
    forall|k: nat| lo + 8 * k <= hi ==> #[trigger] skip.ensures((((lo + 8 * k) as u32),), true)
}

/// Whether the predicate `skip` answered `false` for some aligned address from `lo` up
/// to `hi` in steps of 8.
pub open spec fn some_not_skipped<F: Fn(u32) -> bool>(skip: F, lo: u32, hi: u32) -> bool {
    exists|k: nat| lo + 8 * k <= hi && #[trigger] skip.ensures((((lo + 8 * k) as u32),), false)
}

/// Asks `skip` for every aligned address of `lo..=hi` (step 8) and stops at the first
/// address it does not skip.
fn skip_range<F: Fn(u32) -> bool>(skip: &F, lo: u32, hi: u32) -> (r: bool)
    requires
        hi <= 0xFFFF_FFF7,
        forall|a: u32| skip.requires((a,)),
    ensures
        r ==> all_skipped(*skip, lo, hi),
        !r ==> some_not_skipped(*skip, lo, hi),
{
    let mut a = lo;
    let ghost mut k: nat = 0;
    while a <= hi
        invariant
            hi <= 0xFFFF_FFF7,
            forall|x: u32| skip.requires((x,)),
            a == lo + 8 * k,
            forall|j: nat| j < k && lo + 8 * j <= hi ==> #[trigger] skip.ensures((((lo + 8 * j) as u32),), true),
            k > 0 ==> lo + 8 * (k - 1) <= hi,
        decreases hi + 8 - a,
    {
        if !skip(a) {
            assert(skip.ensures((((lo + 8 * k) as u32),), false));
            return false;
        }
        assert(skip.ensures((((lo + 8 * k) as u32),), true));
        a = a + 8;
        proof {
            k = k + 1;
        }
    }
    assert forall|j: nat| lo + 8 * j <= hi implies #[trigger] skip.ensures((((lo + 8 * j) as u32),), true) by {
        if j >= k {
            assert(lo + 8 * j >= a);
        }
    }
    true
}

/// Whether every memory collector may skip a copy of `count` bytes from `src` to `dst`:
/// `skip_addr(a)` tells whether all collectors skip the aligned address `a`, and it is
/// asked for every aligned address of the destination range and then of the source range.
pub fn skip_dma_mem_inputs<F: Fn(u32) -> bool>(dst: u64, src: u64, count: usize, skip_addr: F) -> (r: bool)
    requires
        dst + count >= 1,
        src + count >= 1,
        dst + count <= u64::MAX,
        src + count <= u64::MAX,
        last_aligned_addr(dst, count) <= 0xFFFF_FFF7,
        last_aligned_addr(src, count) <= 0xFFFF_FFF7,
        forall|a: u32| skip_addr.requires((a,)),
    ensures
        r ==> all_skipped(skip_addr, first_aligned_addr(dst), last_aligned_addr(dst, count))
            && all_skipped(skip_addr, first_aligned_addr(src), last_aligned_addr(src, count)),
        !r ==> some_not_skipped(skip_addr, first_aligned_addr(dst), last_aligned_addr(dst, count))
            || some_not_skipped(skip_addr, first_aligned_addr(src), last_aligned_addr(src, count)),
{
    let to_dst = (#[verifier::truncate] ((dst + count as u64 - 1) as u32)) & !0x07u32;
    let to_src = (#[verifier::truncate] ((src + count as u64 - 1) as u32)) & !0x07u32;
    let from_dst = #[verifier::truncate] ((dst & !0x07u64) as u32);
    let from_src = #[verifier::truncate] ((src & !0x07u64) as u32);
    if !skip_range(&skip_addr, from_dst, to_dst) {
        return false;
    }
    skip_range(&skip_addr, from_src, to_src)
}

/// Log of how DMA inputs were routed to a collector (recording is disabled: every call
/// is a no-op).
pub struct DmaCollectorRoutingLog {}

impl DmaCollectorRoutingLog {
    /// An empty log for a chunk.
    pub fn new(_chunk_id: usize) -> (r: DmaCollectorRoutingLog) {
        DmaCollectorRoutingLog {  }
    }

    /// Records that an input was collected (no-op).
    pub fn log_collect(&mut self, _rows: usize, _data: &[u64]) {
    }

    /// Records that an input was discarded (no-op).
    pub fn log_discard(&mut self, _reason: u8, _data: &[u64]) {
    }

    /// Records a conditional discard (no-op) and returns the condition.
    pub fn log_discard_cond(&mut self, cond: bool, _reason: u8, _data: &[u64], _result: bool) -> (r: bool)
        ensures
            r == cond,
    {
        cond
    }
}

} // verus!
