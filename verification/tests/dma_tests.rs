use zisk_precompiles::dma_compare::{dma_compare_mem_reads, DmaCompareParams};
use zisk_precompiles::dma_64_aligned::{Dma64AlignedInput, Dma64AlignedSM};
use zisk_precompiles::dma_counter::{BusDeviceMode, DmaCounterInputGen};
use zisk_precompiles::dma_helpers::DmaHelpers;
use zisk_precompiles::dma_pre_post::{DmaOp, DmaPrePostInput, DmaPrePostSM};

#[test]
fn dma_values_split_head_words_and_tail() {
    let v = DmaHelpers::precalculate_dma_values(0x1003, 0x2006, 30);
    assert_eq!(v.dst64, 0x1000);
    assert_eq!(v.src64, 0x2000);
    assert_eq!(v.dst_offset, 3);
    assert_eq!(v.src_offset, 6);
    assert_eq!(v.pre_count, 5);
    assert_eq!(v.post_count, 1);
    assert_eq!(v.memcpy_count, 24);
    assert_eq!(v.src64_inc_by_pre, 1);
    assert_eq!(v.src_offset_after_pre, 3);
    let small = DmaHelpers::precalculate_dma_values(0x1001, 0x2000, 3);
    assert_eq!((small.pre_count, small.memcpy_count, small.post_count), (3, 0, 0));
    let aligned = DmaHelpers::precalculate_dma_values(0x1000, 0x2000, 17);
    assert_eq!((aligned.pre_count, aligned.memcpy_count, aligned.post_count), (0, 16, 1));
}

#[test]
fn counter_counts_rows_of_a_copy() {
    let mut c = DmaCounterInputGen::new(BusDeviceMode::Counter);
    c.inst_count_memcpy(0x1000, 0x2000, 64);
    assert_eq!(c.get_ops(), 1);
    assert_eq!(c.get_aligned_ops(), 8);
    assert_eq!(c.get_unaligned_ops(), 0);
    assert_eq!(c.get_pre_post_ops(), 0);
    c.inst_count_memcpy(0x1001, 0x2000, 20);
    assert_eq!(c.get_unaligned_ops(), 2);
    assert_eq!(c.get_pre_post_ops(), 1);
    let mut d = DmaCounterInputGen::new(BusDeviceMode::Counter);
    d.inst_count_memcpy(0x1003, 0x2005, 30);
    assert_eq!(d.get_pre_post_ops(), 2);
    let sum = c.add(d);
    assert_eq!(sum.get_ops(), 3);
    assert_eq!(sum.get_pre_post_ops(), 3);
}

fn copy_input(rows: usize, skip_rows: usize, loop_count: usize, last: bool) -> Dma64AlignedInput {
    let used = loop_count - skip_rows * 2;
    Dma64AlignedInput {
        op: DmaOp::MemCpy,
        step: 5,
        dst: 0x100,
        src: 0x200,
        rows,
        skip_rows,
        loop_count,
        fill_byte: 0,
        src_values: (0..used as u64).map(|i| 0x1111_1111_1111_1111 * (i + 1)).collect(),
        is_last_instance_input: last,
    }
}

#[test]
fn aligned_rows_of_one_input() {
    let sm = Dma64AlignedSM { op_x_rows: 2 };
    let (rows, last) = sm.process_input(&copy_input(2, 0, 3, true));
    assert_eq!(rows.len(), 2);
    assert_eq!(rows[0].count64, 3);
    assert!(!rows[0].seq_end);
    assert!(rows[0].previous_seq_end);
    assert!(rows[0].sel_memcpy_count_load);
    assert_eq!(rows[0].dst64, 0x20);
    assert_eq!(rows[1].dst64, 0x22);
    assert_eq!(rows[1].src64, 0x42);
    assert_eq!(rows[1].count64, 1);
    assert!(rows[1].seq_end);
    assert_eq!(rows[1].sel_op_from_1, vec![false]);
    let last = last.unwrap();
    assert!(last.seq_end);
    assert_eq!(last.count64, 0);
}

#[test]
fn segment_witness_pads_and_resets_the_end() {
    let sm = Dma64AlignedSM { op_x_rows: 2 };
    let inputs = vec![copy_input(1, 0, 2, false), copy_input(2, 0, 3, true)];
    let w = sm.compute_witness(&inputs, 8, 0, true);
    assert_eq!(w.rows.len(), 8);
    assert_eq!(w.padding_size, 5);
    for row in &w.rows[3..] {
        assert!(row.seq_end);
        assert!(row.previous_seq_end);
        assert_eq!(row.count64, 0);
        assert_eq!(row.sel_op_from_1, vec![false]);
        assert_eq!(row.h_value_chunks, vec![[0, 0], [0, 0]]);
    }
    assert_eq!(w.rows[2].count64, 1);
    assert_eq!(w.range_checks, [0, 0]);
    assert!(w.last.seq_end);
    assert!(w.previous.seq_end);
    assert!(w.previous.flags_op.is_none());
    assert_eq!(w.segment_id, 0);
    assert!(w.is_last_segment);
}

#[test]
fn segment_witness_takes_up_an_operation_started_earlier() {
    let sm = Dma64AlignedSM { op_x_rows: 2 };
    let inputs = vec![copy_input(1, 1, 5, true)];
    let w = sm.compute_witness(&inputs, 1, 3, false);
    assert_eq!(w.padding_size, 0);
    assert!(!w.previous.seq_end);
    assert_eq!(w.previous.dst64, 0x20);
    assert_eq!(w.previous.src64, 0x40);
    assert_eq!(w.previous.count64, 5);
    assert_eq!(w.previous.main_step, 5);
    assert_eq!(w.previous.flags_op, Some(DmaOp::MemCpy));
    assert!(!w.last.seq_end);
    assert_eq!(w.last.count64, 3);
    assert_eq!(w.range_checks, [3, 0]);
}

#[test]
fn inputs_without_rows_are_accepted_unless_last() {
    let sm = Dma64AlignedSM { op_x_rows: 2 };
    let empty = Dma64AlignedInput { rows: 0, src_values: vec![], ..copy_input(1, 1, 5, false) };
    let (rows, last) = sm.process_input(&empty);
    assert!(rows.is_empty());
    assert!(last.is_none());
    let inputs = vec![empty, copy_input(1, 1, 0x2_0005, true)];
    let w = sm.compute_witness(&inputs, 1, 3, false);
    assert_eq!(w.rows.len(), 1);
    assert_eq!(w.previous.count64, 0x2_0005);
    assert_eq!(w.last.count64, 0x2_0003);
    assert_eq!(w.range_checks, [3, 2]);
}


#[test]
fn pre_post_witness_counts_table_uses() {
    let sm = DmaPrePostSM { field_order: 0xFFFF_FFFF_0000_0001 };
    let input = DmaPrePostInput {
        src: 0x100,
        dst: 0x200,
        step: 9,
        op: DmaOp::MemCompare,
        pre_count: 0,
        post_count: 2,
        fill_byte: 0,
        compare_result: 5,
        compare_negative: false,
        src_values: [0x0001_0002_0003_0004, 0],
        dst_pre_value: 0x3000,
    };
    let w = sm.compute_witness(&[input], 4);
    assert_eq!(w.outputs.len(), 1);
    assert_eq!(w.outputs[0].byte_compare_row, Some(48 * 255 + 48 - 5));
    assert_eq!(w.byte_compare_mul.len(), 65280);
    assert_eq!(w.byte_compare_mul[48 * 255 + 48 - 5], 1);
    assert_eq!(w.byte_compare_mul.iter().sum::<u64>(), 1);
    assert_eq!(w.dual_range_byte_mul.len(), 65536);
    assert_eq!(w.dual_range_byte_mul[0], 7);
    assert_eq!(w.dual_range_byte_mul[4], 1);
    assert_eq!(w.dual_range_byte_mul[0x3000], 1);
    assert_eq!(w.dual_range_byte_mul.iter().sum::<u64>(), 12);
    assert_eq!(w.outputs[0].row.count, 2);
    assert!(w.outputs[0].row.sel_compare);
}

#[test]
fn compare_reads_of_aligned_and_unaligned_operations() {
    let aligned = DmaCompareParams {
        dst: 0x1000,
        src: 0x2000,
        count: 16,
        pre_count: 0,
        loop_count: 2,
        post_count: 0,
        double_read_pre: false,
        double_read_post: false,
        load_count_from_mem: true,
    };
    let reads = dma_compare_mem_reads(&aligned, &[0xa, 0xb, 0xc, 0xd], 0x300);
    assert_eq!(reads, vec![(0x300, 16), (0x2000, 0xc), (0x2008, 0xd), (0x1000, 0xa), (0x1008, 0xb)]);
    let unaligned = DmaCompareParams {
        dst: 0x1003,
        src: 0x2001,
        count: 10,
        pre_count: 5,
        loop_count: 0,
        post_count: 5,
        double_read_pre: false,
        double_read_post: true,
        load_count_from_mem: false,
    };
    let reads = dma_compare_mem_reads(&unaligned, &[0xd0, 0xd1, 0x50, 0x51], 0x300);
    assert_eq!(reads, vec![(0x2000, 0x50), (0x1000, 0xd0), (0x2000, 0x50), (0x1008, 0xd1), (0x2008, 0x51)]);
}
