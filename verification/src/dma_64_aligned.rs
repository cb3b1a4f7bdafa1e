//! Row values of the DMA state machine for whole aligned words.
//!
//! The whole words of a DMA operation are laid out `op_x_rows` words per row. A row holds
//! the word addresses, the words still to go, and two chunks of each word it moves.

use crate::dma_pre_post::{is_compare_op, is_copy_op, DmaOp};
use vstd::prelude::*;

verus! {

/// The whole-word part of a DMA operation, with the fields of its encoding decoded.
pub struct Dma64AlignedInput {
    /// Kind of operation.
    pub op: DmaOp,
    /// Main step of the operation.
    pub step: u64,
    /// Destination address.
    pub dst: u32,
    /// Source address.
    pub src: u32,
    /// Rows of this input in this segment.
    pub rows: usize,
    /// Rows of this operation already placed in earlier segments.
    pub skip_rows: usize,
    /// Whole words of the whole operation.
    pub loop_count: usize,
    /// Fill byte of a memory fill.
    pub fill_byte: u8,
    /// The words moved by the rows of this input, in order.
    pub src_values: Vec<u64>,
    /// Whether this is the last input of the segment.
    pub is_last_instance_input: bool,
}

/// The values of one whole-word row.
pub struct Dma64AlignedRow {
    pub main_step: u64,
    pub sel_memcpy: bool,
    pub sel_memeq: bool,
    pub sel_memset: bool,
    pub sel_inputcpy: bool,
    pub sel_memcpy_count_load: bool,
    pub fill_byte: u8,
    pub previous_seq_end: bool,
    pub dst64: u32,
    pub src64: u32,
    pub count64: u32,
    pub seq_end: bool,
    /// Whether word `i + 1` of the row is used.
    pub sel_op_from_1: Vec<bool>,
    /// High chunks of each word: bits 8..40 and bits 40..64.
    pub h_value_chunks: Vec<[u32; 2]>,
    /// Low chunks of each word: byte 0 and byte 4.
    pub l_value_chunks: Vec<[u8; 2]>,
}

/// The values that carry an unfinished operation over to the next segment.
pub struct Dma64AlignedSegmentLast {
    pub seq_end: bool,
    pub src64: u32,
    pub dst64: u32,
    pub main_step: u64,
    pub count64: u32,
    pub last_count_chunk: [u16; 2],
    /// The operation whose selector flags the segment end carries; none when it ended.
    pub flags_op: Option<DmaOp>,
}

/// The whole-word state machine: `op_x_rows` words per row.
pub struct Dma64AlignedSM {
    pub op_x_rows: usize,
}

/// Words still to go at row `k`: a row that cannot finish the operation moves `x` words.
pub open spec fn count_at(initial: int, x: int, k: nat) -> int
    decreases k,
{
    if k == 0 {
        initial
    } else {
        let c = count_at(initial, x, (k - 1) as nat);
        if c > x {
            c - x
        } else {
            c
        }
    }
}

/// Words moved by row `k`.
pub open spec fn used_at(initial: int, x: int, k: nat) -> int {
    if count_at(initial, x, k) <= x {
        count_at(initial, x, k)
    } else {
        x
    }
}

/// Words moved by the rows before row `k`.
pub open spec fn used_before(initial: int, x: int, k: nat) -> int
    decreases k,
{
    if k == 0 {
        0
    } else {
        used_before(initial, x, (k - 1) as nat) + used_at(initial, x, (k - 1) as nat)
    }
}

/// The high chunks of a word.
pub open spec fn h_chunks(v: u64) -> Seq<u32> {
    seq![(v >> 8) as u32, (v >> 40) as u32]
}

/// The low chunks of a word.
pub open spec fn l_chunks(v: u64) -> Seq<u8> {
    seq![v as u8, (v >> 32) as u8]
}

/// The chunks of a moved word recompose it: the low chunks are its byte 0 and its byte 4,
/// the high chunks its bits 8..40 and 40..64, so byte 0, the first high chunk shifted by 8
/// and the second shifted by 40 put back the whole word.
pub proof fn lemma_chunks_recompose_word(v: u64)
    ensures
        l_chunks(v).len() == 2,
        h_chunks(v).len() == 2,
        l_chunks(v)[0] as u64 == v & 0xFF,
        l_chunks(v)[1] as u64 == (v >> 32u64) & 0xFF,
        h_chunks(v)[0] as u64 == (v >> 8u64) & 0xFFFF_FFFF,
        h_chunks(v)[1] as u64 == v >> 40u64,
        (l_chunks(v)[0] as u64) | ((h_chunks(v)[0] as u64) << 8u64) | ((h_chunks(v)[1] as u64) << 40u64) == v,
        l_chunks(v)[0] as int + 0x100 * (h_chunks(v)[0] as int) + 0x100_0000_0000 * (h_chunks(v)[1] as int) == v as int,
{
    let a = l_chunks(v)[0];
    let b = l_chunks(v)[1];
    let c = h_chunks(v)[0];
    let d = h_chunks(v)[1];
    assert(a == v as u8 && b == (v >> 32) as u8 && c == (v >> 8) as u32 && d == (v >> 40) as u32);
    assert({
        &&& (v as u8) as u64 == v & 0xFF
        &&& ((v >> 32u64) as u8) as u64 == (v >> 32u64) & 0xFF
        &&& ((v >> 8u64) as u32) as u64 == (v >> 8u64) & 0xFFFF_FFFF
        &&& ((v >> 40u64) as u32) as u64 == v >> 40u64
        &&& ((v & 0xFF) | (((v >> 8u64) & 0xFFFF_FFFF) << 8u64) | ((v >> 40u64) << 40u64)) == v
        &&& (v & 0xFF) as int + 0x100 * (((v >> 8u64) & 0xFFFF_FFFF) as int) + 0x100_0000_0000 * ((v >> 40u64) as int)
            == v as int
    }) by (bit_vector);
}

/// The first whole destination (or source) word of a byte address.
pub open spec fn first_word(addr: u32) -> int {
    (addr + 7) / 8
}

/// The words still to go when this input starts.
pub open spec fn initial_count(i: &Dma64AlignedInput, x: int) -> int {
    i.loop_count - i.skip_rows * x
}

/// Row `k` of input `i` holds the values the state machine puts there.
pub open spec fn aligned_row_ok(row: &Dma64AlignedRow, i: &Dma64AlignedInput, x: int, k: nat) -> bool {
    let initial = initial_count(i, x);
    let c = count_at(initial, x, k);
    let used = used_at(initial, x, k);
    let before = used_before(initial, x, k);
    let first = k == 0 && i.skip_rows == 0;
    &&& row.main_step == i.step
    &&& row.sel_memcpy == is_copy_op(i.op)
    &&& row.sel_memeq == is_compare_op(i.op)
    &&& row.sel_memset == (i.op == DmaOp::XMemSet)
    &&& row.sel_inputcpy == (i.op == DmaOp::InputCpy)
    &&& row.sel_memcpy_count_load == (first && i.op == DmaOp::MemCpy)
    &&& row.fill_byte == (if i.op == DmaOp::XMemSet { i.fill_byte } else { 0u8 })
    &&& row.previous_seq_end == first
    &&& row.dst64 == first_word(i.dst) + i.skip_rows * x + k * x
    &&& row.src64 == first_word(i.src) + i.skip_rows * x + k * x
    &&& row.count64 == c as u32
    &&& row.seq_end == (c <= x)
    &&& row.sel_op_from_1@.len() == x - 1
    &&& row.h_value_chunks@.len() == x
    &&& row.l_value_chunks@.len() == x
    &&& forall|j: int| 1 <= j < x ==> #[trigger] row.sel_op_from_1@[j - 1] == (j < used)
    &&& forall|j: int| 0 <= j < x ==> #[trigger] row.h_value_chunks@[j]@ == (if j < used {
        h_chunks(i.src_values@[before + j])
    } else {
        seq![0u32, 0u32]
    })
    &&& forall|j: int| 0 <= j < x ==> #[trigger] row.l_value_chunks@[j]@ == (if j < used {
        l_chunks(i.src_values@[before + j])
    } else {
        seq![0u8, 0u8]
    })
}

/// The input can be laid out: rows of at least one word, at least one row for the last
/// input of a segment, no more skipped words than the operation has, enough words for the
/// rows, and word addresses that fit in 32 bits.
pub open spec fn aligned_input_ok(i: &Dma64AlignedInput, x: int) -> bool {
    let initial = initial_count(i, x);
    &&& x >= 1
    &&& i.is_last_instance_input ==> i.rows >= 1
    &&& i.skip_rows * x <= i.loop_count
    &&& i.dst + 7 <= u32::MAX
    &&& i.src + 7 <= u32::MAX
    &&& first_word(i.dst) + i.skip_rows * x + i.rows * x <= u32::MAX
    &&& first_word(i.src) + i.skip_rows * x + i.rows * x <= u32::MAX
    &&& used_before(initial, x, i.rows as nat) <= i.src_values@.len()
}

proof fn lemma_count_at_bounds(initial: int, x: int, k: nat)
    requires
        x >= 1,
        initial >= 0,
    ensures
        0 <= count_at(initial, x, k) <= initial,
        0 <= used_at(initial, x, k) <= x,
        used_before(initial, x, k) >= 0,
        count_at(initial, x, k) <= x ==> count_at(initial, x, k + 1) == count_at(initial, x, k),
        count_at(initial, x, k) > x ==> count_at(initial, x, k) == initial - k * x,
        count_at(initial, x, k) <= x ==> count_at(initial, x, k) >= initial - k * x,
    decreases k,
{
    if k > 0 {
        lemma_count_at_bounds(initial, x, (k - 1) as nat);
        assert(initial - (k - 1) * x - x == initial - k * x) by (nonlinear_arith);
        assert(initial - (k - 1) * x >= initial - k * x) by (nonlinear_arith) requires x >= 1;
    }
}

proof fn lemma_used_before_monotone(initial: int, x: int, k: nat, m: nat)
    requires
        x >= 1,
        initial >= 0,
        k <= m,
    ensures
        used_before(initial, x, k) <= used_before(initial, x, m),
    decreases m - k,
{
    if k < m {
        lemma_used_before_monotone(initial, x, k, (m - 1) as nat);
        lemma_count_at_bounds(initial, x, (m - 1) as nat);
    }
}


/// The segment-end values after the rows of input `i`: none unless it is the last input;
/// zeros when its operation ended; otherwise the position of its last row, the words it
/// still had to go, split into 16-bit chunks, and its operation.
pub open spec fn segment_last_ok(r: Option<Dma64AlignedSegmentLast>, i: &Dma64AlignedInput, x: int) -> bool {
    let initial = initial_count(i, x);
    let last_k = (i.rows - 1) as nat;
    if !i.is_last_instance_input {
        r is None
    } else if count_at(initial, x, last_k) <= x {
        r matches Some(l) && l.seq_end && l.src64 == 0 && l.dst64 == 0 && l.main_step == 0 && l.count64 == 0
            && l.last_count_chunk@ == seq![0u16, 0u16] && l.flags_op is None
    } else {
        let last_count = initial - last_k * x;
        r matches Some(l) && !l.seq_end && l.src64 == first_word(i.src) + i.skip_rows * x + last_k * x
            && l.dst64 == first_word(i.dst) + i.skip_rows * x + last_k * x && l.main_step == i.step
            && l.count64 == last_count as u32 && l.last_count_chunk@ == seq![last_count as u16, (last_count / 0x10000) as u16]
            && l.flags_op == Some(i.op)
    }
}

impl Dma64AlignedSM {
    /// Builds row `k` of input `i`, given the words still to go, the index of its first
    /// word in `i.src_values` and its word addresses.
    fn build_row(&self, input: &Dma64AlignedInput, k: usize, count64: usize, svi: usize, dst64: u32, src64: u32) -> (row: Dma64AlignedRow)
        requires
            aligned_input_ok(input, self.op_x_rows as int),
            k < input.rows,
            count64 == count_at(initial_count(input, self.op_x_rows as int), self.op_x_rows as int, k as nat),
            svi == used_before(initial_count(input, self.op_x_rows as int), self.op_x_rows as int, k as nat),
            dst64 == first_word(input.dst) + input.skip_rows * self.op_x_rows + k * self.op_x_rows,
            src64 == first_word(input.src) + input.skip_rows * self.op_x_rows + k * self.op_x_rows,
        ensures
            aligned_row_ok(&row, input, self.op_x_rows as int, k as nat),
    {
        let x = self.op_x_rows;
        let ghost initial = initial_count(input, x as int);
        proof {
            lemma_count_at_bounds(initial, x as int, k as nat);
            lemma_used_before_monotone(initial, x as int, (k + 1) as nat, input.rows as nat);
        }
        let used = if count64 <= x { count64 } else { x };
        let is_copy = match input.op {
            DmaOp::MemCpy | DmaOp::XMemCpy => true,
            _ => false,
        };
        let is_eq = match input.op {
            DmaOp::MemCompare | DmaOp::XMemCompare => true,
            _ => false,
        };
        let is_set = match input.op {
            DmaOp::XMemSet => true,
            _ => false,
        };
        let is_input = match input.op {
            DmaOp::InputCpy => true,
            _ => false,
        };
        let is_count_load = match input.op {
            DmaOp::MemCpy => true,
            _ => false,
        };
        let first = k == 0 && input.skip_rows == 0;
        let mut sel: Vec<bool> = Vec::new();
        let mut j: usize = 1;
        while j < x
            invariant
                1 <= j <= x,
                sel@.len() == j - 1,
                forall|t: int| 1 <= t < j ==> #[trigger] sel@[t - 1] == (t < used),
            decreases x - j,
        {
            sel.push(j < used);
            j = j + 1;
        }
        let mut h: Vec<[u32; 2]> = Vec::new();
        let mut l: Vec<[u8; 2]> = Vec::new();
        let mut j: usize = 0;
        let vlen = input.src_values.len();
        while j < x
            invariant
                j <= x,
                vlen == input.src_values@.len(),
                used <= x,
                svi + used <= input.src_values@.len(),
                h@.len() == j,
                l@.len() == j,
                forall|t: int| 0 <= t < j ==> #[trigger] h@[t]@ == (if t < used {
                    h_chunks(input.src_values@[svi + t])
                } else {
                    seq![0u32, 0u32]
                }),
                forall|t: int| 0 <= t < j ==> #[trigger] l@[t]@ == (if t < used {
                    l_chunks(input.src_values@[svi + t])
                } else {
                    seq![0u8, 0u8]
                }),
            decreases x - j,
        {
            if j < used {
                let v = input.src_values[svi + j];
                let hv: [u32; 2] = [#[verifier::truncate] ((v >> 8u64) as u32), #[verifier::truncate] ((v >> 40u64) as u32)];
                let lv: [u8; 2] = [#[verifier::truncate] (v as u8), #[verifier::truncate] ((v >> 32u64) as u8)];
                assert(hv@ =~= h_chunks(v));
                assert(lv@ =~= l_chunks(v));
                h.push(hv);
                l.push(lv);
            } else {
                let hv: [u32; 2] = [0, 0];
                let lv: [u8; 2] = [0, 0];
                assert(hv@ =~= seq![0u32, 0u32]);
                assert(lv@ =~= seq![0u8, 0u8]);
                h.push(hv);
                l.push(lv);
            }
            j = j + 1;
        }
        Dma64AlignedRow {
            main_step: input.step,
            sel_memcpy: is_copy,
            sel_memeq: is_eq,
            sel_memset: is_set,
            sel_inputcpy: is_input,
            sel_memcpy_count_load: first && is_count_load,
            fill_byte: if is_set { input.fill_byte } else { 0 },
            previous_seq_end: first,
            dst64,
            src64,
            count64: #[verifier::truncate] (count64 as u32),
            seq_end: count64 <= x,
            sel_op_from_1: sel,
            h_value_chunks: h,
            l_value_chunks: l,
        }
    }

    /// Lays out the whole words of `input` in rows, `op_x_rows` words per row, starting
    /// after the rows placed in earlier segments; for the last input of a segment it also
    /// gives the values that carry an unfinished operation over to the next segment.
    pub fn process_input(&self, input: &Dma64AlignedInput) -> (r: (Vec<Dma64AlignedRow>, Option<Dma64AlignedSegmentLast>))
        requires
            aligned_input_ok(input, self.op_x_rows as int),
        ensures
            r.0@.len() == input.rows,
            forall|k: int| 0 <= k < input.rows ==> aligned_row_ok(#[trigger] &r.0@[k], input, self.op_x_rows as int, k as nat),
            segment_last_ok(r.1, input, self.op_x_rows as int),
    {
        let x = self.op_x_rows;
        let rows = input.rows;
        assert(input.skip_rows * x <= input.loop_count);
        let skip_count = input.skip_rows * x;
        let initial = input.loop_count - skip_count;
        let ghost ini = initial as int;
        let d7 = input.dst + 7;
        let s7 = input.src + 7;
        assert(d7 >> 3u32 == d7 / 8) by (bit_vector);
        assert(s7 >> 3u32 == s7 / 8) by (bit_vector);
        assert(x * rows >= rows) by (nonlinear_arith) requires x >= 1;
        assert(skip_count + rows * x <= u32::MAX);
        let mut dst64: u32 = (d7 >> 3u32) + skip_count as u32;
        let mut src64: u32 = (s7 >> 3u32) + skip_count as u32;
        let mut count64 = initial;
        let mut svi: usize = 0;
        let mut seq_end = false;
        let mut out: Vec<Dma64AlignedRow> = Vec::new();
        let vlen = input.src_values.len();
        let mut k: usize = 0;
        while k < rows
            invariant
                vlen == input.src_values@.len(),
                aligned_input_ok(input, x as int),
                x == self.op_x_rows,
                rows == input.rows,
                skip_count == input.skip_rows * x,
                ini == initial_count(input, x as int),
                0 <= k <= rows,
                count64 == count_at(ini, x as int, k as nat),
                svi == used_before(ini, x as int, k as nat),
                dst64 == first_word(input.dst) + skip_count + k * x,
                src64 == first_word(input.src) + skip_count + k * x,
                seq_end == (k > 0 && count_at(ini, x as int, (k - 1) as nat) <= x),
                out@.len() == k,
                forall|t: int| 0 <= t < k ==> aligned_row_ok(#[trigger] &out@[t], input, x as int, t as nat),
            decreases rows - k,
        {
            proof {
                lemma_count_at_bounds(ini, x as int, k as nat);
                lemma_used_before_monotone(ini, x as int, (k + 1) as nat, rows as nat);
                assert((k + 1) * x <= rows * x) by (nonlinear_arith) requires k < rows, x >= 1;
                assert(k * x + x == (k + 1) * x) by (nonlinear_arith);
                if k > 0 {
                    lemma_count_at_bounds(ini, x as int, (k - 1) as nat);
                }
            }
            let row = self.build_row(input, k, count64, svi, dst64, src64);
            out.push(row);
            dst64 = dst64 + x as u32;
            src64 = src64 + x as u32;
            if count64 <= x {
                seq_end = true;
                svi = svi + count64;
            } else {
                count64 = count64 - x;
                svi = svi + x;
            }
            k = k + 1;
        }
        let ghost last_k = (rows - 1) as nat;
        let last = if input.is_last_instance_input {
            proof {
                lemma_count_at_bounds(ini, x as int, last_k);
                assert(last_k * x + x == rows * x) by (nonlinear_arith) requires last_k + 1 == rows;
            }
            if seq_end {
                Some(Dma64AlignedSegmentLast {
                    seq_end: true,
                    src64: 0,
                    dst64: 0,
                    main_step: 0,
                    count64: 0,
                    last_count_chunk: [0, 0],
                    flags_op: None,
                })
            } else {
                assert((rows - 1) * x <= initial) by (nonlinear_arith)
                    requires
                        count_at(ini, x as int, last_k) == ini - last_k * x,
                        count_at(ini, x as int, last_k) > x,
                        last_k == rows - 1,
                        ini == initial;
                let last_count = initial - (rows - 1) * x;
                let chunk: [u16; 2] = [#[verifier::truncate] (last_count as u16), #[verifier::truncate] ((last_count >> 16usize) as u16)];
                assert(last_count >> 16usize == last_count / 0x10000) by (bit_vector);
                assert(chunk@ =~= seq![#[verifier::truncate] (last_count as u16), #[verifier::truncate] ((last_count / 0x10000) as u16)]);
                Some(Dma64AlignedSegmentLast {
                    seq_end: false,
                    src64: src64 - x as u32,
                    dst64: dst64 - x as u32,
                    main_step: input.step,
                    count64: #[verifier::truncate] (last_count as u32),
                    last_count_chunk: chunk,
                    flags_op: Some(input.op),
                })
            }
        } else {
            None
        };
        (out, last)
    }
}

/// Where the segment takes up an operation: fresh, or in the middle of one that an
/// earlier segment started.
#[derive(Clone, Copy, Debug)]
pub struct Dma64AlignedSegmentPrevious {
    pub seq_end: bool,
    pub dst64: u32,
    pub src64: u32,
    pub main_step: u64,
    pub count64: u32,
    /// The operation whose selector flags the previous segment carried; none when fresh.
    pub flags_op: Option<DmaOp>,
}

/// The witness of one segment of the whole-word state machine.
pub struct Dma64AlignedSegment {
    /// Every row of the trace: the rows of the inputs, in order, then the padding rows.
    pub rows: Vec<Dma64AlignedRow>,
    /// Rows of padding after the inputs.
    pub padding_size: usize,
    /// Where the segment leaves the last operation.
    pub last: Dma64AlignedSegmentLast,
    /// Where the segment takes up the first operation.
    pub previous: Dma64AlignedSegmentPrevious,
    /// The two values checked to lie in 16 bits: the low and the high half of the last
    /// operation's count.
    pub range_checks: [u16; 2],
    pub segment_id: usize,
    pub is_last_segment: bool,
}

/// A padding row: it ends a sequence and follows the end of one; every other value is zero.
pub open spec fn padding_row_ok(row: &Dma64AlignedRow, x: int) -> bool {
    &&& row.main_step == 0
    &&& !row.sel_memcpy
    &&& !row.sel_memeq
    &&& !row.sel_memset
    &&& !row.sel_inputcpy
    &&& !row.sel_memcpy_count_load
    &&& row.fill_byte == 0
    &&& row.previous_seq_end
    &&& row.dst64 == 0
    &&& row.src64 == 0
    &&& row.count64 == 0
    &&& row.seq_end
    &&& row.sel_op_from_1@.len() == x - 1
    &&& row.h_value_chunks@.len() == x
    &&& row.l_value_chunks@.len() == x
    &&& forall|j: int| 0 <= j < x - 1 ==> !#[trigger] row.sel_op_from_1@[j]
    &&& forall|j: int| 0 <= j < x ==> #[trigger] row.h_value_chunks@[j]@ == seq![0u32, 0u32]
    &&& forall|j: int| 0 <= j < x ==> #[trigger] row.l_value_chunks@[j]@ == seq![0u8, 0u8]
}

/// The index of the first input from `i` on that has rows, or the number of inputs if none
/// has.
pub open spec fn first_filled_from(inputs: Seq<Dma64AlignedInput>, i: int) -> int
    decreases inputs.len() - i,
{
    if i < 0 || i >= inputs.len() {
        inputs.len() as int
    } else if inputs[i].rows > 0 {
        i
    } else {
        first_filled_from(inputs, i + 1)
    }
}

/// The input whose first row is the first row of the segment.
pub open spec fn first_filled(inputs: Seq<Dma64AlignedInput>) -> int {
    first_filled_from(inputs, 0)
}

/// The segment end of a segment that ends with its last operation finished, or that has
/// padding after it.
pub open spec fn ended_segment_last(l: Dma64AlignedSegmentLast) -> bool {
    l.seq_end && l.src64 == 0 && l.dst64 == 0 && l.main_step == 0 && l.count64 == 0
        && l.last_count_chunk@ == seq![0u16, 0u16] && l.flags_op is None
}

/// The segment end before any input set it: every value zero.
pub open spec fn unset_segment_last(l: Dma64AlignedSegmentLast) -> bool {
    !l.seq_end && l.src64 == 0 && l.dst64 == 0 && l.main_step == 0 && l.count64 == 0
        && l.last_count_chunk@ == seq![0u16, 0u16] && l.flags_op is None
}

/// Rows of the inputs `inputs[..n]`.
pub open spec fn rows_before(inputs: Seq<Dma64AlignedInput>, n: int) -> int
    decreases n,
{
    if n <= 0 {
        0
    } else {
        rows_before(inputs, n - 1) + inputs[n - 1].rows
    }
}

/// `rows` are the rows of `input`.
pub open spec fn input_rows_ok(rows: Seq<Dma64AlignedRow>, input: Dma64AlignedInput, x: int) -> bool {
    &&& rows.len() == input.rows
    &&& forall|k: int| 0 <= k < input.rows ==> aligned_row_ok(&#[trigger] rows[k], &input, x, k as nat)
}

/// `rows` are the rows of `inputs`, one input after the other.
pub open spec fn segment_rows_ok(rows: Seq<Dma64AlignedRow>, inputs: Seq<Dma64AlignedInput>, x: int) -> bool
    decreases inputs.len(),
{
    if inputs.len() == 0 {
        rows.len() == 0
    } else {
        let m = inputs.last().rows as int;
        &&& rows.len() >= m
        &&& segment_rows_ok(rows.subrange(0, rows.len() - m), inputs.drop_last(), x)
        &&& input_rows_ok(rows.subrange(rows.len() - m, rows.len() as int), inputs.last(), x)
    }
}

/// The segment end left by the inputs `inputs[..n]`: that of the last one that sets it.
pub open spec fn last_set(inputs: Seq<Dma64AlignedInput>, n: int, l: Dma64AlignedSegmentLast, x: int) -> bool
    decreases n,
{
    if n <= 0 {
        unset_segment_last(l)
    } else if inputs[n - 1].is_last_instance_input {
        segment_last_ok(Some(l), &inputs[n - 1], x)
    } else {
        last_set(inputs, n - 1, l, x)
    }
}

/// Inputs of a segment that the state machine can lay out in `num_rows` rows.
pub open spec fn segment_inputs_ok(inputs: Seq<Dma64AlignedInput>, num_rows: int, x: int) -> bool {
    &&& inputs.len() > 0
    &&& forall|i: int| 0 <= i < inputs.len() ==> aligned_input_ok(&#[trigger] inputs[i], x)
    &&& 1 <= rows_before(inputs, inputs.len() as int) <= num_rows
    &&& inputs[0].skip_rows > 0 ==> {
        let f = inputs[first_filled(inputs)];
        &&& first_word(f.dst) + f.skip_rows * x >= x
        &&& first_word(f.src) + f.skip_rows * x >= x
        &&& count_at(initial_count(&f, x), x, 0) + x <= u32::MAX
    }
}

proof fn lemma_rows_before_monotone(inputs: Seq<Dma64AlignedInput>, a: int, b: int)
    requires
        0 <= a <= b,
    ensures
        rows_before(inputs, a) <= rows_before(inputs, b),
    decreases b,
{
    if a < b {
        lemma_rows_before_monotone(inputs, a, b - 1);
    }
}

impl Dma64AlignedSM {
    /// A padding row (see [`padding_row_ok`]).
    fn padding_row(&self) -> (row: Dma64AlignedRow)
        requires
            self.op_x_rows >= 1,
        ensures
            padding_row_ok(&row, self.op_x_rows as int),
    {
        let x = self.op_x_rows;
        let mut sel: Vec<bool> = Vec::new();
        let mut h: Vec<[u32; 2]> = Vec::new();
        let mut l: Vec<[u8; 2]> = Vec::new();
        let mut j: usize = 0;
        while j < x
            invariant
                j <= x,
                sel@.len() == (if j == 0 { 0 } else { j - 1 }),
                h@.len() == j,
                l@.len() == j,
                forall|t: int| 0 <= t < sel@.len() ==> !#[trigger] sel@[t],
                forall|t: int| 0 <= t < j ==> #[trigger] h@[t]@ == seq![0u32, 0u32],
                forall|t: int| 0 <= t < j ==> #[trigger] l@[t]@ == seq![0u8, 0u8],
            decreases x - j,
        {
            if j > 0 {
                sel.push(false);
            }
            let hv: [u32; 2] = [0, 0];
            let lv: [u8; 2] = [0, 0];
            assert(hv@ =~= seq![0u32, 0u32]);
            assert(lv@ =~= seq![0u8, 0u8]);
            h.push(hv);
            l.push(lv);
            j = j + 1;
        }
        Dma64AlignedRow {
            main_step: 0,
            sel_memcpy: false,
            sel_memeq: false,
            sel_memset: false,
            sel_inputcpy: false,
            sel_memcpy_count_load: false,
            fill_byte: 0,
            previous_seq_end: true,
            dst64: 0,
            src64: 0,
            count64: 0,
            seq_end: true,
            sel_op_from_1: sel,
            h_value_chunks: h,
            l_value_chunks: l,
        }
    }

    /// Lays out a segment of `num_rows` rows: the rows of each input one after the other,
    /// then padding rows; where the segment leaves the last operation (ended when there is
    /// padding), where it takes up the first one, and the halves of the last count whose
    /// range it checks.
    pub fn compute_witness(
        &self,
        inputs: &[Dma64AlignedInput],
        num_rows: usize,
        segment_id: usize,
        is_last_segment: bool,
    ) -> (r: Dma64AlignedSegment)
        requires
            segment_inputs_ok(inputs@, num_rows as int, self.op_x_rows as int),
            inputs@[0].skip_rows > 0 ==> segment_id > 0,
        ensures
            ({
                let filled = rows_before(inputs@, inputs@.len() as int);
                &&& r.rows@.len() == num_rows
                &&& segment_rows_ok(r.rows@.subrange(0, filled), inputs@, self.op_x_rows as int)
                &&& forall|k: int| filled <= k < num_rows ==> padding_row_ok(#[trigger] &r.rows@[k], self.op_x_rows as int)
                &&& r.padding_size == num_rows - filled
            }),
            r.padding_size > 0 ==> ended_segment_last(r.last),
            r.padding_size == 0 ==> last_set(inputs@, inputs@.len() as int, r.last, self.op_x_rows as int),
            r.range_checks@ == seq![(r.last.count64 % 0x10000) as u16, (r.last.count64 / 0x10000) as u16],
            inputs@[0].skip_rows == 0 ==> (r.previous.seq_end && r.previous.dst64 == 0 && r.previous.src64 == 0
                && r.previous.main_step == 0 && r.previous.count64 == 0 && r.previous.flags_op is None),
            inputs@[0].skip_rows > 0 ==> {
                let f = inputs@[first_filled(inputs@)];
                let x = self.op_x_rows as int;
                &&& !r.previous.seq_end
                &&& r.previous.dst64 == first_word(f.dst) + f.skip_rows * x - x
                &&& r.previous.src64 == first_word(f.src) + f.skip_rows * x - x
                &&& r.previous.main_step == f.step
                &&& r.previous.count64 == count_at(initial_count(&f, x), x, 0) + x
                &&& r.previous.flags_op == Some(inputs@[0].op)
            },
            r.segment_id == segment_id,
            r.is_last_segment == is_last_segment,
    {
        let x = self.op_x_rows;
        let n = inputs.len();
        let mut rows: Vec<Dma64AlignedRow> = Vec::new();
        let mut last = Dma64AlignedSegmentLast {
            seq_end: false,
            src64: 0,
            dst64: 0,
            main_step: 0,
            count64: 0,
            last_count_chunk: [0u16, 0u16],
            flags_op: None,
        };
        assert(last.last_count_chunk@ =~= seq![0u16, 0u16]);
        let mut i: usize = 0;
        while i < n
            invariant
                i <= n,
                n == inputs@.len(),
                segment_inputs_ok(inputs@, num_rows as int, x as int),
                x == self.op_x_rows,
                segment_rows_ok(rows@, inputs@.take(i as int), x as int),
                rows@.len() == rows_before(inputs@, i as int),
                last_set(inputs@, i as int, last, x as int),
                rows@.len() == 0 ==> first_filled(inputs@) == first_filled_from(inputs@, i as int),
                rows@.len() > 0 ==> 0 <= first_filled(inputs@) < i && aligned_row_ok(
                    &rows@[0],
                    &inputs@[first_filled(inputs@)],
                    x as int,
                    0,
                ),
            decreases n - i,
        {
            proof {
                lemma_rows_before_monotone(inputs@, i + 1, n as int);
                assert(aligned_input_ok(&inputs@[i as int], x as int));
            }
            let (mut input_rows, input_last) = self.process_input(&inputs[i]);
            let ghost before = rows@;
            let ghost added = input_rows@;
            rows.append(&mut input_rows);
            match input_last {
                Some(l) => {
                    last = l;
                },
                None => {},
            }
            proof {
                let t = inputs@.take(i + 1);
                assert(t.drop_last() =~= inputs@.take(i as int));
                assert(t.last() == inputs@[i as int]);
                assert(rows@.subrange(0, rows@.len() - added.len()) =~= before);
                assert(rows@.subrange(rows@.len() - added.len(), rows@.len() as int) =~= added);
                if before.len() > 0 {
                    assert(rows@[0] == before[0]);
                } else if added.len() > 0 {
                    assert(first_filled_from(inputs@, i as int) == i);
                    assert(rows@[0] == added[0]);
                } else {
                    assert(first_filled_from(inputs@, i as int) == first_filled_from(inputs@, i + 1));
                }
            }
            i = i + 1;
        }
        proof {
            assert(inputs@.take(n as int) =~= inputs@);
        }
        let filled = rows.len();
        let padding_size = num_rows - filled;
        let ghost input_rows = rows@;
        let mut k: usize = filled;
        while k < num_rows
            invariant
                filled <= k <= num_rows,
                filled == input_rows.len(),
                x == self.op_x_rows,
                x >= 1,
                rows@.len() == k,
                rows@.subrange(0, filled as int) == input_rows,
                forall|t: int| filled <= t < k ==> padding_row_ok(#[trigger] &rows@[t], x as int),
            decreases num_rows - k,
        {
            let ghost prev = rows@;
            rows.push(self.padding_row());
            proof {
                assert(rows@.subrange(0, filled as int) =~= prev.subrange(0, filled as int));
            }
            k = k + 1;
        }
        if padding_size > 0 {
            last = Dma64AlignedSegmentLast {
                seq_end: true,
                src64: 0,
                dst64: 0,
                main_step: 0,
                count64: 0,
                last_count_chunk: [0u16, 0u16],
                flags_op: None,
            };
            assert(last.last_count_chunk@ =~= seq![0u16, 0u16]);
        }
        let range_checks: [u16; 2] = [(last.count64 % 0x10000) as u16, (last.count64 / 0x10000) as u16];
        assert(range_checks@ =~= seq![(last.count64 % 0x10000) as u16, (last.count64 / 0x10000) as u16]);
        let first = &inputs[0];
        let previous = if first.skip_rows == 0 {
            Dma64AlignedSegmentPrevious {
                seq_end: true,
                dst64: 0,
                src64: 0,
                main_step: 0,
                count64: 0,
                flags_op: None,
            }
        } else {
            proof {
                assert(rows@[0] == input_rows[0]);
            }
            let row0 = &rows[0];
            Dma64AlignedSegmentPrevious {
                seq_end: false,
                dst64: row0.dst64 - x as u32,
                src64: row0.src64 - x as u32,
                main_step: row0.main_step,
                count64: row0.count64 + x as u32,
                flags_op: Some(first.op),
            }
        };
        Dma64AlignedSegment { rows, padding_size, last, previous, range_checks, segment_id, is_last_segment }
    }
}
} // verus!
