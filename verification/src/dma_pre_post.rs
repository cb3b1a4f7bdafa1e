//! Row values of the DMA head/tail state machine.
//!
//! A DMA operation whose destination is not word aligned, or whose length is not a whole
//! number of words, writes a partial word at its start (head) and at its end (tail). Each
//! such partial word is one row: the bytes read, the bytes kept from the destination, the
//! byte mask, and the lookups that the row needs.

use crate::bytes::word_byte;
use vstd::prelude::*;

verus! {

/// The kinds of DMA operation.
#[derive(Debug, Clone, Copy, PartialEq, Eq, Structural)]
pub enum DmaOp {
    /// Copy between memory areas.
    MemCpy,
    /// Copy between memory areas, extended form.
    XMemCpy,
    /// Comparison of memory areas.
    MemCompare,
    /// Comparison of memory areas, extended form.
    XMemCompare,
    /// Fill of a memory area with a byte.
    XMemSet,
    /// Copy of input data into memory.
    InputCpy,
}

/// Whether the operation compares memory.
pub open spec fn is_compare_op(op: DmaOp) -> bool {
    op == DmaOp::MemCompare || op == DmaOp::XMemCompare
}

/// Whether the operation copies memory.
pub open spec fn is_copy_op(op: DmaOp) -> bool {
    op == DmaOp::MemCpy || op == DmaOp::XMemCpy
}

/// A head or tail of a DMA operation, with the fields of its encoding already decoded.
pub struct DmaPrePostInput {
    /// Source address.
    pub src: u32,
    /// Destination address.
    pub dst: u32,
    /// Main step of the operation.
    pub step: u64,
    /// Kind of operation.
    pub op: DmaOp,
    /// Bytes of the head of the operation.
    pub pre_count: usize,
    /// Bytes of the tail of the operation.
    pub post_count: usize,
    /// Fill byte of a memory fill.
    pub fill_byte: u8,
    /// Result of a comparison (destination minus source at the first differing byte).
    pub compare_result: u64,
    /// Whether the comparison result is negative.
    pub compare_negative: bool,
    /// The source words read.
    pub src_values: [u64; 2],
    /// The destination word before the write.
    pub dst_pre_value: u64,
}

/// The values of one head/tail row.
pub struct DmaPrePostRow {
    pub main_step: u64,
    pub dst64: u32,
    pub src64: u32,
    pub dst_offset: u8,
    pub src_offset: u8,
    pub is_post: bool,
    pub count: u8,
    pub sel_memcpy: bool,
    pub sel_memset: bool,
    pub sel_inputcpy: bool,
    pub sel_compare: bool,
    pub fill_byte: u8,
    pub enabled_second_read: bool,
    pub dst_offset_gt_src_offset: bool,
    pub write_value: [u32; 4],
    pub sb: [bool; 8],
    pub rb: [u8; 16],
    pub pb: [u8; 8],
    pub selr: [bool; 7],
    pub compare_result_is_negative: bool,
    pub compare_result_nz: bool,
    pub abs_diff_dst_src: u8,
    pub diff_factor: [u64; 2],
}

/// The key of the head/tail table row that a row uses.
pub struct PrePostRomQuery {
    pub dst_offset: usize,
    pub src_offset: usize,
    pub count: usize,
    pub is_nz: bool,
    pub is_negative: bool,
    pub load_src: bool,
}

/// Everything a head/tail input produces: the row, its table key, the byte-compare table
/// row it uses (comparisons with a nonzero result only), and the 16-bit chunks that the
/// dual byte range check counts once each.
pub struct DmaPrePostOutput {
    pub row: DmaPrePostRow,
    pub rom: PrePostRomQuery,
    pub byte_compare_row: Option<usize>,
    pub dual_range_chunks: Vec<u16>,
}

/// The head/tail state machine; `field_order` is the order of the prime field of the trace.
pub struct DmaPrePostSM {
    pub field_order: u64,
}

/// Offset of the destination within its word.
pub open spec fn pp_dst_offset(i: DmaPrePostInput) -> int {
    (i.dst % 8) as int
}

/// Offset of the source within its word; zero when no source is read.
pub open spec fn pp_src_offset(i: DmaPrePostInput) -> int {
    if is_copy_op(i.op) || is_compare_op(i.op) {
        (i.src % 8) as int
    } else {
        0
    }
}

/// Bytes of the row: the head count for a head, the tail count for a tail.
pub open spec fn pp_count(i: DmaPrePostInput) -> int {
    if i.dst % 8 > 0 {
        i.pre_count as int
    } else {
        i.post_count as int
    }
}

/// Distance between the destination and source offsets.
pub open spec fn pp_selr(i: DmaPrePostInput) -> int {
    if pp_dst_offset(i) > pp_src_offset(i) {
        pp_dst_offset(i) - pp_src_offset(i)
    } else {
        pp_src_offset(i) - pp_dst_offset(i)
    }
}

/// The mask of the bytes the row writes: bytes `dst_offset..dst_offset + count`.
pub open spec fn pp_mask(dst_offset: u64, count: u64) -> u64 {
    let m = 0xFFFF_FFFF_FFFF_FFFFu64 << (dst_offset * 8);
    m ^ (m << (count * 8))
}

/// The source bytes shifted into the destination position: the low word.
pub open spec fn pp_read01(v0: u64, v1: u64, selr: u64) -> u64 {
    (v0 >> (selr * 8)) | (if selr > 0 { v1 << (64 - selr * 8) } else { 0 })
}

/// The source bytes shifted into the destination position: the high word.
pub open spec fn pp_read23(v0: u64, selr: u64) -> u64 {
    if selr > 0 {
        v0 << (selr * 8)
    } else {
        0
    }
}

/// The written word: masked read bytes over the kept destination bytes.
pub open spec fn pp_write(read: u64, pre: u64, mask: u64) -> u64 {
    (read & mask) | (pre & !mask)
}

/// The four 16-bit chunks of a word, lowest first.
pub open spec fn chunks16(v: u64) -> Seq<u16> {
    seq![(v & 0xFFFF) as u16, ((v >> 16) & 0xFFFF) as u16, ((v >> 32) & 0xFFFF) as u16, ((v >> 48) & 0xFFFF) as u16]
}

/// The eight bytes of a word, lowest first.
pub open spec fn bytes8(v: u64) -> Seq<u8> {
    Seq::new(8, |k: int| word_byte(v, k))
}

/// The input can be processed: the row fits in its word, and a comparison result is
/// consistent with the destination byte it ends at.
pub open spec fn pre_post_input_ok(i: DmaPrePostInput) -> bool {
    let count = pp_count(i);
    let dst_offset = pp_dst_offset(i);
    &&& count < 8
    &&& dst_offset + count <= 8
    &&& is_compare_op(i.op) ==> {
        let abs = if i.compare_negative { (!i.compare_result).wrapping_add(1) } else { i.compare_result };
        let last = word_byte(i.dst_pre_value, dst_offset + count - 1);
        &&& dst_offset + count >= 1
        &&& abs <= 0xFF
        &&& (i.compare_result != 0 && i.compare_negative ==> abs >= last && abs + last <= 0xFF)
        &&& (i.compare_result != 0 && !i.compare_negative ==> abs <= last)
    }
}

/// The 16-bit chunks that the dual byte range check counts for a row: those of the read
/// words (all zero for the second word when it is not read), unless the row is a fill,
/// then those of the destination word.
pub open spec fn pp_dual_range_chunks(i: DmaPrePostInput) -> Seq<u16> {
    let second = pp_src_offset(i) + pp_count(i) > 8;
    (if i.op == DmaOp::XMemSet {
        Seq::empty()
    } else {
        chunks16(i.src_values[0]) + if second {
            chunks16(i.src_values[1])
        } else {
            seq![0u16, 0u16, 0u16, 0u16]
        }
    }) + chunks16(i.dst_pre_value)
}

fn chunks16_exec(v: u64) -> (r: [u16; 4])
    ensures
        r@ == chunks16(v),
{
    let r = [(v & 0xFFFF) as u16, ((v >> 16u64) & 0xFFFF) as u16, ((v >> 32u64) & 0xFFFF) as u16, ((v >> 48u64) & 0xFFFF) as u16];
    assert(r@ =~= chunks16(v));
    r
}

/// Each byte of the row mask is all ones inside the written window and zero outside.
pub proof fn lemma_pre_post_mask(dst_offset: u64, count: u64)
    requires
        count < 8,
        dst_offset + count <= 8,
    ensures
        forall|k: u64| #![trigger (pp_mask(dst_offset, count) >> (8 * k))] k < 8 ==> ((pp_mask(dst_offset, count) >> (8 * k)) & 0xFF)
            == (if dst_offset <= k < dst_offset + count { 0xFFu64 } else { 0u64 }),
{
    assert(forall|k: u64| #![trigger ((((0xFFFF_FFFF_FFFF_FFFFu64 << (dst_offset * 8)) ^ ((0xFFFF_FFFF_FFFF_FFFFu64 << (dst_offset * 8)) << (count * 8)))) >> (8 * k))]
        k < 8 && count < 8 && dst_offset + count <= 8 ==> ((((0xFFFF_FFFF_FFFF_FFFFu64 << (dst_offset * 8)) ^ ((0xFFFF_FFFF_FFFF_FFFFu64 << (dst_offset * 8)) << (count * 8))) >> (8 * k)) & 0xFF)
            == (if dst_offset <= k < dst_offset + count { 0xFFu64 } else { 0u64 })) by (bit_vector);
}

/// A written word takes its bytes inside the window from the read word and keeps the
/// destination's bytes outside it.
pub proof fn lemma_pre_post_write(read: u64, pre: u64, dst_offset: u64, count: u64)
    requires
        count < 8,
        dst_offset + count <= 8,
    ensures
        forall|k: u64| #![trigger (pp_write(read, pre, pp_mask(dst_offset, count)) >> (8 * k))] k < 8 ==> ((pp_write(read, pre, pp_mask(dst_offset, count)) >> (8 * k)) & 0xFF) == (if dst_offset <= k < dst_offset + count {
            (read >> (8 * k)) & 0xFF
        } else {
            (pre >> (8 * k)) & 0xFF
        }),
{
    let m = pp_mask(dst_offset, count);
    lemma_pre_post_mask(dst_offset, count);
    assert(forall|k: u64, r: u64, p: u64, mm: u64| #![trigger ((r & mm) | (p & !mm)) >> (8 * k)] k < 8 ==> ((((r & mm) | (p & !mm)) >> (8 * k)) & 0xFF)
        == ((((r >> (8 * k)) & 0xFF) & ((mm >> (8 * k)) & 0xFF)) | (((p >> (8 * k)) & 0xFF) & !((mm >> (8 * k)) & 0xFF) & 0xFF))) by (bit_vector);
    assert(forall|x: u64| #![trigger (x & 0xFF)] ((x & 0xFF) & 0xFFu64) == (x & 0xFF) && ((x & 0xFF) & 0u64) == 0 && (((x & 0xFF) & !0xFFu64) & 0xFF) == 0 && (((x & 0xFF) & !0u64) & 0xFF) == (x & 0xFF) && (0u64 | (x & 0xFF)) == (x & 0xFF) && ((x & 0xFF) | 0u64) == (x & 0xFF)) by (bit_vector);
}


/// The output of the head/tail state machine for input `i`, in a field of order
/// `field_order`: offsets, selectors, the bytes read and kept, the written words under the
/// byte mask, the comparison fields, and the lookups it needs.
pub open spec fn slice_output_ok(field_order: u64, i: DmaPrePostInput, out: &DmaPrePostOutput) -> bool {
    let row = out.row;
    let dst_offset = pp_dst_offset(i);
    let src_offset = pp_src_offset(i);
    let count = pp_count(i);
    let selr = pp_selr(i);
    let mask = pp_mask(dst_offset as u64, count as u64);
    let v0 = i.src_values[0];
    let v1 = i.src_values[1];
    let w01 = pp_write(pp_read01(v0, v1, selr as u64), i.dst_pre_value, mask);
    let w23 = pp_write(pp_read23(v0, selr as u64), i.dst_pre_value, mask);
    let second = src_offset + count > 8;
    let is_set = i.op == DmaOp::XMemSet;
    &&& row.main_step == i.step
    &&& row.dst64 == i.dst / 8
    &&& row.src64 == i.src / 8
    &&& row.dst_offset == dst_offset
    &&& row.src_offset == src_offset
    &&& row.is_post == (dst_offset == 0)
    &&& row.count == count
    &&& row.sel_memcpy == is_copy_op(i.op)
    &&& row.sel_memset == is_set
    &&& row.sel_inputcpy == (i.op == DmaOp::InputCpy)
    &&& row.sel_compare == is_compare_op(i.op)
    &&& row.fill_byte == (if is_set { i.fill_byte } else { 0u8 })
    &&& row.enabled_second_read == second
    &&& row.dst_offset_gt_src_offset == (dst_offset > src_offset)
    &&& row.write_value@ == seq![w01 as u32, (w01 >> 32) as u32, w23 as u32, (w23 >> 32) as u32]
    &&& (forall|k: int| 0 <= k < 8 ==> #[trigger] row.sb@[k] == ((mask & (0xFFu64 << ((8 * k) as u64))) != 0))
    &&& row.rb@ == (if is_set {
        Seq::new(16, |k: int| i.fill_byte)
    } else {
        bytes8(v0) + if second { bytes8(v1) } else { Seq::new(8, |k: int| 0u8) }
    })
    &&& row.pb@ == bytes8(i.dst_pre_value)
    &&& (forall|k: int| 0 <= k < 7 ==> #[trigger] row.selr@[k] == (selr == k))
    &&& out.dual_range_chunks@ == pp_dual_range_chunks(i)
    &&& out.rom.dst_offset == dst_offset
    &&& out.rom.src_offset == src_offset
    &&& out.rom.count == count
    &&& (!is_compare_op(i.op) ==> {
        &&& !out.rom.is_nz
        &&& !out.rom.is_negative
        &&& out.rom.load_src == is_copy_op(i.op)
        &&& out.byte_compare_row is None
        &&& !row.compare_result_is_negative
        &&& !row.compare_result_nz
        &&& row.abs_diff_dst_src == 0
        &&& row.diff_factor@ == seq![0u64, 0u64]
    })
    &&& (is_compare_op(i.op) ==> {
        let nz = i.compare_result != 0;
        let neg = i.compare_negative;
        let abs = if neg { (!i.compare_result).wrapping_add(1) } else { i.compare_result };
        let dst_index = dst_offset + count - 1;
        let last = word_byte(i.dst_pre_value, dst_index);
        &&& out.rom.is_nz == nz
        &&& out.rom.is_negative == neg
        &&& out.rom.load_src
        &&& row.compare_result_is_negative == neg
        &&& row.compare_result_nz == nz
        &&& row.abs_diff_dst_src == abs
        &&& row.diff_factor@ == (if neg {
            if count < 5 {
                seq![(field_order - (1u64 << ((8 * dst_index) as u64))) as u64, 0u64]
            } else {
                seq![0u64, (field_order - (1u64 << ((8 * (dst_index - 4)) as u64))) as u64]
            }
        } else if nz {
            if count < 5 {
                seq![1u64 << ((8 * dst_index) as u64), 0u64]
            } else {
                seq![0u64, 1u64 << ((8 * (dst_index - 4)) as u64)]
            }
        } else {
            seq![0u64, 0u64]
        })
        &&& out.byte_compare_row == (if !nz {
            None::<usize>
        } else if neg {
            Some((last * 255 + abs + last - 1) as usize)
        } else {
            Some((last * 255 + last - abs) as usize)
        })
    })
}

/// The word that a row writes, put together from its two 32-bit halves: the low pair when
/// the source bytes move down to the destination offset, the high pair when they move up.
pub open spec fn row_written_word(row: DmaPrePostRow) -> u64 {
    if row.dst_offset_gt_src_offset {
        (row.write_value@[2] as u64) | ((row.write_value@[3] as u64) << 32u64)
    } else {
        (row.write_value@[0] as u64) | ((row.write_value@[1] as u64) << 32u64)
    }
}

/// Byte `j` of the two source words taken one after the other (bytes 8 to 15 are those of
/// the second word).
pub open spec fn source_byte(i: DmaPrePostInput, j: int) -> u8 {
    if j < 8 {
        word_byte(i.src_values[0], j)
    } else {
        word_byte(i.src_values[1], j - 8)
    }
}

/// A copy row moves bytes: each destination byte `k` of the row's window
/// `dst_offset..dst_offset + count` is the source byte `src_offset + k - dst_offset` of the
/// source words read one after the other, the second word included where the window of
/// the source runs past the first; every destination byte outside the window is kept.
pub proof fn lemma_copy_row_bytes(field_order: u64, i: DmaPrePostInput, out: &DmaPrePostOutput)
    requires
        pre_post_input_ok(i),
        is_copy_op(i.op) || i.op == DmaOp::InputCpy,
        slice_output_ok(field_order, i, out),
    ensures
        forall|k: int| 0 <= k < 8 ==> #[trigger] word_byte(row_written_word(out.row), k) == (if pp_dst_offset(i) <= k
            < pp_dst_offset(i) + pp_count(i) {
            source_byte(i, pp_src_offset(i) + k - pp_dst_offset(i))
        } else {
            word_byte(i.dst_pre_value, k)
        }),
{
    let dst_off = pp_dst_offset(i);
    let src_off = pp_src_offset(i);
    let count = pp_count(i);
    let selr = pp_selr(i);
    let v0 = i.src_values[0];
    let v1 = i.src_values[1];
    let pre = i.dst_pre_value;
    let mask = pp_mask(dst_off as u64, count as u64);
    let up = dst_off > src_off;
    let read = if up { pp_read23(v0, selr as u64) } else { pp_read01(v0, v1, selr as u64) };
    let ww = pp_write(read, pre, mask);
    let row = out.row;
    assert(0 <= src_off < 8 && 0 <= selr < 8);
    assert(forall|w: u64| #![trigger (w >> 32u64)] ((w as u32) as u64) | ((((w >> 32u64) as u32) as u64) << 32u64) == w)
        by (bit_vector);
    assert(row_written_word(row) == ww);
    lemma_pre_post_write(read, pre, dst_off as u64, count as u64);
    assert forall|k: int| 0 <= k < 8 implies #[trigger] word_byte(row_written_word(row), k) == (if dst_off <= k < dst_off
        + count {
        source_byte(i, src_off + k - dst_off)
    } else {
        word_byte(pre, k)
    }) by {
        let ku = k as u64;
        let b = (8 * ku) as u64;
        assert(b == (8 * k) as u64);
        assert(((ww >> (8 * ku)) & 0xFF) == (if dst_off <= ku < dst_off + count {
            (read >> (8 * ku)) & 0xFF
        } else {
            (pre >> (8 * ku)) & 0xFF
        }));
        if dst_off <= k < dst_off + count {
            let a = (8 * selr) as u64;
            if up {
                assert(k >= selr);
                assert(read == v0 << a);
                assert(((v0 << a) >> b) & 0xFF == (v0 >> ((b - a) as u64)) & 0xFF) by (bit_vector)
                    requires
                        a <= b <= 56,
                ;
                assert((b - a) as u64 == (8 * (src_off + k - dst_off)) as u64);
            } else if selr == 0 {
                assert(read == v0) by (bit_vector)
                    requires
                        read == (v0 >> 0u64) | 0u64,
                ;
            } else {
                assert(read == (v0 >> a) | (v1 << ((64 - a) as u64)));
                if k + selr < 8 {
                    assert((((v0 >> a) | (v1 << ((64 - a) as u64))) >> b) & 0xFF == (v0 >> ((a + b) as u64)) & 0xFF)
                        by (bit_vector)
                        requires
                            8 <= a <= 56,
                            a + b <= 56,
                    ;
                    assert((a + b) as u64 == (8 * (src_off + k - dst_off)) as u64);
                } else {
                    assert((((v0 >> a) | (v1 << ((64 - a) as u64))) >> b) & 0xFF == (v1 >> ((a + b - 64) as u64)) & 0xFF)
                        by (bit_vector)
                        requires
                            8 <= a <= 56,
                            b <= 56,
                            a + b >= 64,
                    ;
                    assert((a + b - 64) as u64 == (8 * (src_off + k - dst_off - 8)) as u64);
                }
            }
        }
    }
}

impl DmaPrePostSM {
    /// Computes the row of a head or tail: offsets, selectors, the bytes read and kept, the
    /// written words under the byte mask, the comparison fields, and the lookups it needs.
    #[verifier::rlimit(60)]
    pub fn process_slice(&self, input: &DmaPrePostInput) -> (out: DmaPrePostOutput)
        requires
            pre_post_input_ok(*input),
            self.field_order >= 0x0100_0000_0000_0000,
        ensures
            ({
                let i = *input;
                let row = out.row;
                let dst_offset = pp_dst_offset(i);
                let src_offset = pp_src_offset(i);
                let count = pp_count(i);
                let selr = pp_selr(i);
                let mask = pp_mask(dst_offset as u64, count as u64);
                let v0 = i.src_values[0];
                let v1 = i.src_values[1];
                let w01 = pp_write(pp_read01(v0, v1, selr as u64), i.dst_pre_value, mask);
                let w23 = pp_write(pp_read23(v0, selr as u64), i.dst_pre_value, mask);
                let second = src_offset + count > 8;
                let is_set = i.op == DmaOp::XMemSet;
                &&& row.main_step == i.step
                &&& row.dst64 == i.dst / 8
                &&& row.src64 == i.src / 8
                &&& row.dst_offset == dst_offset
                &&& row.src_offset == src_offset
                &&& row.is_post == (dst_offset == 0)
                &&& row.count == count
                &&& row.sel_memcpy == is_copy_op(i.op)
                &&& row.sel_memset == is_set
                &&& row.sel_inputcpy == (i.op == DmaOp::InputCpy)
                &&& row.sel_compare == is_compare_op(i.op)
                &&& row.fill_byte == (if is_set { i.fill_byte } else { 0u8 })
                &&& row.enabled_second_read == second
                &&& row.dst_offset_gt_src_offset == (dst_offset > src_offset)
                &&& row.write_value@ == seq![w01 as u32, (w01 >> 32) as u32, w23 as u32, (w23 >> 32) as u32]
                &&& (forall|k: int| 0 <= k < 8 ==> #[trigger] row.sb@[k] == ((mask & (0xFFu64 << ((8 * k) as u64))) != 0))
                &&& row.rb@ == (if is_set {
                    Seq::new(16, |k: int| i.fill_byte)
                } else {
                    bytes8(v0) + if second { bytes8(v1) } else { Seq::new(8, |k: int| 0u8) }
                })
                &&& row.pb@ == bytes8(i.dst_pre_value)
                &&& (forall|k: int| 0 <= k < 7 ==> #[trigger] row.selr@[k] == (selr == k))
                &&& out.dual_range_chunks@ == pp_dual_range_chunks(i)
                &&& out.rom.dst_offset == dst_offset
                &&& out.rom.src_offset == src_offset
                &&& out.rom.count == count
                &&& (!is_compare_op(i.op) ==> {
                    &&& !out.rom.is_nz
                    &&& !out.rom.is_negative
                    &&& out.rom.load_src == is_copy_op(i.op)
                    &&& out.byte_compare_row is None
                    &&& !row.compare_result_is_negative
                    &&& !row.compare_result_nz
                    &&& row.abs_diff_dst_src == 0
                    &&& row.diff_factor@ == seq![0u64, 0u64]
                })
                &&& (is_compare_op(i.op) ==> {
                    let nz = i.compare_result != 0;
                    let neg = i.compare_negative;
                    let abs = if neg { (!i.compare_result).wrapping_add(1) } else { i.compare_result };
                    let dst_index = dst_offset + count - 1;
                    let last = word_byte(i.dst_pre_value, dst_index);
                    &&& out.rom.is_nz == nz
                    &&& out.rom.is_negative == neg
                    &&& out.rom.load_src
                    &&& row.compare_result_is_negative == neg
                    &&& row.compare_result_nz == nz
                    &&& row.abs_diff_dst_src == abs
                    &&& row.diff_factor@ == (if neg {
                        if count < 5 {
                            seq![(self.field_order - (1u64 << ((8 * dst_index) as u64))) as u64, 0u64]
                        } else {
                            seq![0u64, (self.field_order - (1u64 << ((8 * (dst_index - 4)) as u64))) as u64]
                        }
                    } else if nz {
                        if count < 5 {
                            seq![1u64 << ((8 * dst_index) as u64), 0u64]
                        } else {
                            seq![0u64, 1u64 << ((8 * (dst_index - 4)) as u64)]
                        }
                    } else {
                        seq![0u64, 0u64]
                    })
                    &&& out.byte_compare_row == (if !nz {
                        None::<usize>
                    } else if neg {
                        Some((last * 255 + abs + last - 1) as usize)
                    } else {
                        Some((last * 255 + last - abs) as usize)
                    })
                })
            }),
    {
        let is_compare = match input.op {
            DmaOp::MemCompare | DmaOp::XMemCompare => true,
            _ => false,
        };
        let is_copy = match input.op {
            DmaOp::MemCpy | DmaOp::XMemCpy => true,
            _ => false,
        };
        let is_set = match input.op {
            DmaOp::XMemSet => true,
            _ => false,
        };
        let is_input = match input.op {
            DmaOp::InputCpy => true,
            _ => false,
        };
        let load_src = is_copy || is_compare;
        let dst = input.dst;
        let src = input.src;
        assert(dst & 0x07u32 == dst % 8 && dst >> 3u32 == dst / 8) by (bit_vector);
        assert(src & 0x07u32 == src % 8 && src >> 3u32 == src / 8) by (bit_vector);
        let dst_offset = dst & 0x07u32;
        let src_offset = if load_src { src & 0x07u32 } else { 0 };
        let is_pre = dst_offset > 0;
        let count = if is_pre { input.pre_count } else { input.post_count };
        let fill_byte = input.fill_byte;
        let second_read = (src_offset as usize + count) > 8;
        let v0 = input.src_values[0];
        let v1 = input.src_values[1];
        let pre = input.dst_pre_value;
        let b0 = crate::bytes::word_le_bytes(v0);
        let b1 = crate::bytes::word_le_bytes(v1);
        let pb = crate::bytes::word_le_bytes(pre);
        let rb: [u8; 16] = if is_set {
            [fill_byte; 16]
        } else if second_read {
            [b0[0], b0[1], b0[2], b0[3], b0[4], b0[5], b0[6], b0[7], b1[0], b1[1], b1[2], b1[3], b1[4], b1[5], b1[6], b1[7]]
        } else {
            [b0[0], b0[1], b0[2], b0[3], b0[4], b0[5], b0[6], b0[7], 0, 0, 0, 0, 0, 0, 0, 0]
        };
        proof {
            if is_set {
                assert(rb@ =~= Seq::new(16, |k: int| input.fill_byte));
            } else if second_read {
                assert(rb@ =~= bytes8(v0) + bytes8(v1));
            } else {
                assert(rb@ =~= bytes8(v0) + Seq::new(8, |k: int| 0u8));
            }
        }
        let mut chunks: Vec<u16> = Vec::new();
        if !is_set {
            let c0 = chunks16_exec(v0);
            chunks.push(c0[0]);
            chunks.push(c0[1]);
            chunks.push(c0[2]);
            chunks.push(c0[3]);
            if second_read {
                let c1 = chunks16_exec(v1);
                chunks.push(c1[0]);
                chunks.push(c1[1]);
                chunks.push(c1[2]);
                chunks.push(c1[3]);
            } else {
                chunks.push(0);
                chunks.push(0);
                chunks.push(0);
                chunks.push(0);
            }
        }
        let cp = chunks16_exec(pre);
        chunks.push(cp[0]);
        chunks.push(cp[1]);
        chunks.push(cp[2]);
        chunks.push(cp[3]);
        assert(chunks@ =~= pp_dual_range_chunks(*input));
        let gt = dst_offset > src_offset;
        let selr_value: u64 = if gt { (dst_offset - src_offset) as u64 } else { (src_offset - dst_offset) as u64 };
        let read_value_23: u64 = if selr_value > 0 { v0 << (selr_value * 8) } else { 0 };
        let read_value_01: u64 = (v0 >> (selr_value * 8)) | if selr_value > 0 { v1 << (64 - selr_value * 8) } else { 0 };
        let dst_off64 = dst_offset as u64;
        let count64 = count as u64;
        let full_mask: u64 = 0xFFFF_FFFF_FFFF_FFFFu64 << (dst_off64 * 8);
        let mask: u64 = full_mask ^ (full_mask << (count64 * 8));
        let write_value_01 = (read_value_01 & mask) | (pre & !mask);
        let write_value_23 = (read_value_23 & mask) | (pre & !mask);
        let write_value: [u32; 4] = [
            #[verifier::truncate] (write_value_01 as u32),
            #[verifier::truncate] ((write_value_01 >> 32u64) as u32),
            #[verifier::truncate] (write_value_23 as u32),
            #[verifier::truncate] ((write_value_23 >> 32u64) as u32),
        ];
        let sb: [bool; 8] = [
            (mask & 0x0000_0000_0000_00FFu64) != 0,
            (mask & 0x0000_0000_0000_FF00u64) != 0,
            (mask & 0x0000_0000_00FF_0000u64) != 0,
            (mask & 0x0000_0000_FF00_0000u64) != 0,
            (mask & 0x0000_00FF_0000_0000u64) != 0,
            (mask & 0x0000_FF00_0000_0000u64) != 0,
            (mask & 0x00FF_0000_0000_0000u64) != 0,
            (mask & 0xFF00_0000_0000_0000u64) != 0,
        ];
        assert({
            &&& 0xFFu64 << 0u64 == 0x0000_0000_0000_00FFu64
            &&& 0xFFu64 << 8u64 == 0x0000_0000_0000_FF00u64
            &&& 0xFFu64 << 16u64 == 0x0000_0000_00FF_0000u64
            &&& 0xFFu64 << 24u64 == 0x0000_0000_FF00_0000u64
            &&& 0xFFu64 << 32u64 == 0x0000_00FF_0000_0000u64
            &&& 0xFFu64 << 40u64 == 0x0000_FF00_0000_0000u64
            &&& 0xFFu64 << 48u64 == 0x00FF_0000_0000_0000u64
            &&& 0xFFu64 << 56u64 == 0xFF00_0000_0000_0000u64
        }) by (bit_vector);
        let selr: [bool; 7] = [
            selr_value == 0,
            selr_value == 1,
            selr_value == 2,
            selr_value == 3,
            selr_value == 4,
            selr_value == 5,
            selr_value == 6,
        ];
        let mut compare_result_is_negative = false;
        let mut compare_result_nz = false;
        let mut abs_diff_dst_src: u8 = 0;
        let mut diff_factor: [u64; 2] = [0, 0];
        let mut byte_compare_row: Option<usize> = None;
        let rom = if is_compare {
            let result = input.compare_result;
            let is_negative = input.compare_negative;
            let is_nz = result != 0;
            compare_result_is_negative = is_negative;
            compare_result_nz = is_nz;
            assert(!result == 0xFFFF_FFFF_FFFF_FFFFu64 - result) by (bit_vector);
            let abs = if is_negative { (!result).wrapping_add(1) } else { result };
            abs_diff_dst_src = abs as u8;
            let dst_index = dst_offset as usize + count - 1;
            assert(forall|sh: u64| sh <= 56 ==> #[trigger] (1u64 << sh) <= 0x0100_0000_0000_0000u64) by (bit_vector);
            if is_negative {
                if count < 5 {
                    diff_factor = [self.field_order - (1u64 << (8 * dst_index as u64)), 0];
                } else {
                    diff_factor = [0, self.field_order - (1u64 << (8 * (dst_index - 4) as u64))];
                }
            } else if is_nz {
                if count < 5 {
                    diff_factor = [1u64 << (8 * dst_index as u64), 0];
                } else {
                    diff_factor = [0, 1u64 << (8 * (dst_index - 4) as u64)];
                }
            }
            if is_nz {
                let last = pb[dst_index];
                let a8 = abs as u8;
                if is_negative {
                    byte_compare_row = Some(last as usize * 255 + (a8 + last) as usize - 1);
                } else {
                    byte_compare_row = Some(last as usize * 255 + (last - a8) as usize);
                }
            }
            PrePostRomQuery {
                dst_offset: dst_offset as usize,
                src_offset: src_offset as usize,
                count,
                is_nz,
                is_negative,
                load_src: true,
            }
        } else {
            PrePostRomQuery {
                dst_offset: dst_offset as usize,
                src_offset: src_offset as usize,
                count,
                is_nz: false,
                is_negative: false,
                load_src,
            }
        };
        let row = DmaPrePostRow {
            main_step: input.step,
            dst64: dst >> 3u32,
            src64: src >> 3u32,
            dst_offset: dst_offset as u8,
            src_offset: src_offset as u8,
            is_post: !is_pre,
            count: count as u8,
            sel_memcpy: is_copy,
            sel_memset: is_set,
            sel_inputcpy: is_input,
            sel_compare: is_compare,
            fill_byte: if is_set { fill_byte } else { 0 },
            enabled_second_read: second_read,
            dst_offset_gt_src_offset: gt,
            write_value,
            sb,
            rb,
            pb,
            selr,
            compare_result_is_negative,
            compare_result_nz,
            abs_diff_dst_src,
            diff_factor,
        };
        proof {
            assert(row.write_value@ =~= seq![
                #[verifier::truncate] (write_value_01 as u32),
                #[verifier::truncate] ((write_value_01 >> 32) as u32),
                #[verifier::truncate] (write_value_23 as u32),
                #[verifier::truncate] ((write_value_23 >> 32) as u32),
            ]);
        }
        DmaPrePostOutput { row, rom, byte_compare_row, dual_range_chunks: chunks }
    }
}

/// Rows of the byte-compare table.
pub const BYTE_COMPARE_ROWS: usize = 65280;

/// Rows of the dual byte range table.
pub const DUAL_RANGE_ROWS: usize = 65536;

/// The multiplicities that a segment of head/tail rows adds to its lookup tables, and the
/// outputs of its inputs.
pub struct DmaPrePostWitness {
    /// The output of each input, in order.
    pub outputs: Vec<DmaPrePostOutput>,
    /// How many rows use each row of the byte-compare table.
    pub byte_compare_mul: Vec<u64>,
    /// How many times each 16-bit value is range checked.
    pub dual_range_byte_mul: Vec<u64>,
}

/// How many of `rows` are `Some(j)`.
pub open spec fn rows_using(rows: Seq<Option<usize>>, j: int) -> nat
    decreases rows.len(),
{
    if rows.len() == 0 {
        0
    } else {
        rows_using(rows.drop_last(), j) + (if rows.last() == Some(j as usize) { 1nat } else { 0nat })
    }
}

/// How many times `c` occurs in `s`.
pub open spec fn occurrences(s: Seq<u16>, c: int) -> nat
    decreases s.len(),
{
    if s.len() == 0 {
        0
    } else {
        occurrences(s.drop_last(), c) + (if s.last() == c { 1nat } else { 0nat })
    }
}

/// How many times `c` occurs in all the sequences of `ss`.
pub open spec fn occurrences_in(ss: Seq<Seq<u16>>, c: int) -> nat
    decreases ss.len(),
{
    if ss.len() == 0 {
        0
    } else {
        occurrences_in(ss.drop_last(), c) + occurrences(ss.last(), c)
    }
}

/// The byte-compare table row of each output.
pub open spec fn compare_rows(outs: Seq<DmaPrePostOutput>) -> Seq<Option<usize>> {
    outs.map_values(|o: DmaPrePostOutput| o.byte_compare_row)
}

/// The range-checked values of each output.
pub open spec fn range_chunks(outs: Seq<DmaPrePostOutput>) -> Seq<Seq<u16>> {
    outs.map_values(|o: DmaPrePostOutput| o.dual_range_chunks@)
}

proof fn lemma_rows_using_bound(rows: Seq<Option<usize>>, j: int)
    ensures
        rows_using(rows, j) <= rows.len(),
    decreases rows.len(),
{
    if rows.len() > 0 {
        lemma_rows_using_bound(rows.drop_last(), j);
    }
}

proof fn lemma_occurrences_bound(s: Seq<u16>, c: int)
    ensures
        occurrences(s, c) <= s.len(),
    decreases s.len(),
{
    if s.len() > 0 {
        lemma_occurrences_bound(s.drop_last(), c);
    }
}

proof fn lemma_occurrences_in_bound(ss: Seq<Seq<u16>>, c: int)
    requires
        forall|k: int| 0 <= k < ss.len() ==> (#[trigger] ss[k]).len() <= 12,
    ensures
        occurrences_in(ss, c) <= 12 * ss.len(),
    decreases ss.len(),
{
    if ss.len() > 0 {
        let d = ss.drop_last();
        assert forall|k: int| 0 <= k < d.len() implies (#[trigger] d[k]).len() <= 12 by {
            assert(d[k] == ss[k]);
        }
        lemma_occurrences_in_bound(d, c);
        lemma_occurrences_bound(ss.last(), c);
    }
}

impl DmaPrePostSM {
    /// The outputs of a segment of head/tail inputs, in order, and the multiplicities they
    /// add to the byte-compare and dual byte range tables.
    pub fn compute_witness(&self, inputs: &[DmaPrePostInput], num_rows: usize) -> (w: DmaPrePostWitness)
        requires
            0 < inputs@.len() <= num_rows,
            inputs@.len() * 12 <= u64::MAX,
            forall|k: int| 0 <= k < inputs@.len() ==> pre_post_input_ok(#[trigger] inputs@[k]),
            self.field_order >= 0x0100_0000_0000_0000,
        ensures
            w.outputs@.len() == inputs@.len(),
            forall|k: int| 0 <= k < inputs@.len() ==> slice_output_ok(self.field_order, #[trigger] inputs@[k], &w.outputs@[k]),
            w.byte_compare_mul@.len() == BYTE_COMPARE_ROWS,
            forall|j: int| 0 <= j < BYTE_COMPARE_ROWS ==> #[trigger] w.byte_compare_mul@[j] == rows_using(compare_rows(w.outputs@), j),
            w.dual_range_byte_mul@.len() == DUAL_RANGE_ROWS,
            forall|c: int| 0 <= c < DUAL_RANGE_ROWS ==> #[trigger] w.dual_range_byte_mul@[c] == occurrences_in(range_chunks(w.outputs@), c),
    {
        let n = inputs.len();
        let mut outputs: Vec<DmaPrePostOutput> = Vec::new();
        let mut byte_compare_mul: Vec<u64> = vec![0u64; BYTE_COMPARE_ROWS];
        let mut dual_range_byte_mul: Vec<u64> = vec![0u64; DUAL_RANGE_ROWS];
        let mut k: usize = 0;
        while k < n
            invariant
                k <= n,
                n == inputs@.len(),
                n * 12 <= u64::MAX,
                forall|q: int| 0 <= q < inputs@.len() ==> pre_post_input_ok(#[trigger] inputs@[q]),
                self.field_order >= 0x0100_0000_0000_0000,
                outputs@.len() == k,
                forall|q: int| 0 <= q < k ==> slice_output_ok(self.field_order, #[trigger] inputs@[q], &outputs@[q]),
                forall|q: int| 0 <= q < k ==> (#[trigger] outputs@[q]).dual_range_chunks@.len() <= 12,
                byte_compare_mul@.len() == BYTE_COMPARE_ROWS,
                forall|j: int| 0 <= j < BYTE_COMPARE_ROWS ==> #[trigger] byte_compare_mul@[j] == rows_using(compare_rows(outputs@), j),
                dual_range_byte_mul@.len() == DUAL_RANGE_ROWS,
                forall|c: int| 0 <= c < DUAL_RANGE_ROWS ==> #[trigger] dual_range_byte_mul@[c] == occurrences_in(range_chunks(outputs@), c),
            decreases n - k,
        {
            let out = self.process_slice(&inputs[k]);
            let ghost i = inputs@[k as int];
            proof {
                assert(slice_output_ok(self.field_order, i, &out));
                assert(out.dual_range_chunks@.len() <= 12);
            }
            match out.byte_compare_row {
                Some(j) => {
                    proof {
                        let count = pp_count(i);
                        let dst_offset = pp_dst_offset(i);
                        let last = word_byte(i.dst_pre_value, dst_offset + count - 1);
                        assert(is_compare_op(i.op));
                        let cr = i.compare_result;
                        assert(cr != 0 ==> (!cr).wrapping_add(1) != 0) by (bit_vector);
                        let abs = if i.compare_negative { (!cr).wrapping_add(1) } else { cr };
                        assert(cr != 0);
                        assert(abs >= 1);
                        assert(last <= 255);
                        assert(last * 255 <= 255 * 255) by (nonlinear_arith)
                            requires
                                last <= 255,
                        ;
                        if i.compare_negative {
                            assert(last * 255 + abs + last - 1 < 65280);
                        } else {
                            assert(last * 255 + last - abs < 65280);
                        }
                        assert(j < BYTE_COMPARE_ROWS);
                        lemma_rows_using_bound(compare_rows(outputs@), j as int);
                    }
                    let ghost before = byte_compare_mul@;
                    let v = byte_compare_mul[j];
                    byte_compare_mul.set(j, v + 1);
                    proof {
                        let rows = compare_rows(outputs@.push(out));
                        assert(rows.drop_last() =~= compare_rows(outputs@));
                        assert(rows.last() == Some(j));
                        assert forall|jj: int| 0 <= jj < BYTE_COMPARE_ROWS implies #[trigger] byte_compare_mul@[jj]
                            == rows_using(rows, jj) by {
                            assert(rows_using(rows, jj) == rows_using(compare_rows(outputs@), jj) + (if jj == j { 1nat } else { 0nat }));
                        }
                    }
                },
                None => {
                    proof {
                        let rows = compare_rows(outputs@.push(out));
                        assert(rows.drop_last() =~= compare_rows(outputs@));
                        assert forall|jj: int| 0 <= jj < BYTE_COMPARE_ROWS implies #[trigger] byte_compare_mul@[jj]
                            == rows_using(rows, jj) by {
                            assert(rows_using(rows, jj) == rows_using(compare_rows(outputs@), jj));
                        }
                    }
                },
            }
            let ghost prev = range_chunks(outputs@);
            let m = out.dual_range_chunks.len();
            let mut t: usize = 0;
            while t < m
                invariant
                    t <= m,
                    m == out.dual_range_chunks@.len(),
                    m <= 12,
                    k < n,
                    n * 12 <= u64::MAX,
                    prev.len() == k,
                    forall|q: int| 0 <= q < k ==> (#[trigger] prev[q]).len() <= 12,
                    dual_range_byte_mul@.len() == DUAL_RANGE_ROWS,
                    forall|c: int| 0 <= c < DUAL_RANGE_ROWS ==> #[trigger] dual_range_byte_mul@[c] == occurrences_in(prev, c)
                        + occurrences(out.dual_range_chunks@.subrange(0, t as int), c),
                decreases m - t,
            {
                let c = out.dual_range_chunks[t] as usize;
                proof {
                    lemma_occurrences_in_bound(prev, c as int);
                    lemma_occurrences_bound(out.dual_range_chunks@.subrange(0, t as int), c as int);
                    assert(12 * k + t < 12 * n) by (nonlinear_arith)
                        requires
                            k < n,
                            t < 12,
                    ;
                }
                let v = dual_range_byte_mul[c];
                dual_range_byte_mul.set(c, v + 1);
                proof {
                    let sub = out.dual_range_chunks@.subrange(0, t + 1);
                    assert(sub.drop_last() =~= out.dual_range_chunks@.subrange(0, t as int));
                    assert(sub.last() == c as u16);
                    assert forall|cc: int| 0 <= cc < DUAL_RANGE_ROWS implies #[trigger] dual_range_byte_mul@[cc]
                        == occurrences_in(prev, cc) + occurrences(sub, cc) by {
                        assert(occurrences(sub, cc) == occurrences(out.dual_range_chunks@.subrange(0, t as int), cc) + (
                        if cc == c { 1nat } else { 0nat }));
                    }
                }
                t = t + 1;
            }
            outputs.push(out);
            proof {
                let ss = range_chunks(outputs@);
                assert(ss.drop_last() =~= prev);
                assert(ss.last() == out.dual_range_chunks@);
                assert(out.dual_range_chunks@.subrange(0, m as int) =~= out.dual_range_chunks@);
                assert forall|q: int| 0 <= q < k + 1 implies slice_output_ok(self.field_order, #[trigger] inputs@[q], &outputs@[q]) by {
                    if q < k {
                    } else {
                        assert(outputs@[q] == out);
                    }
                }
            }
            k = k + 1;
        }
        DmaPrePostWitness { outputs, byte_compare_mul, dual_range_byte_mul }
    }
}
} // verus!
