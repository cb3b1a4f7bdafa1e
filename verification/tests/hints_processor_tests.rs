use zisk_precompiles::error::{HintError, HintName};
use zisk_precompiles::hint_code::{CTRL_CANCEL, CTRL_END, CTRL_ERROR, CTRL_START};
use zisk_precompiles::hint_format::make_header;
use zisk_precompiles::hint_batch::HintBatch;
use zisk_precompiles::hints_processor::{
    assemble_outputs, finish_end, process_hint, sequential_hint_task, sequential_tasks, check_sequential_hints, BatchStep, HintProcessorState, HintTask,
    PrecompileHint, HINTS_TYPE_ECRECOVER, HINTS_TYPE_RESULT,
};
use zisk_precompiles::hints_relay::{hints_payload, relay_sends, validate_relay_batch, RelayBatch, StreamType};

/// Hands every ready result at the front to `out`, as the drainer does.
fn drain(state: &mut HintProcessorState, out: &mut Vec<Vec<u64>>) {
    while let Some(r) = state.drain_next() {
        match r {
            Ok(v) => out.push(v),
            Err(_) => break,
        }
    }
}

/// The result of a dispatched hint, with the ecrecover verification left out.
fn work(hint: &PrecompileHint) -> Result<Vec<u64>, HintError> {
    match process_hint(hint) {
        Ok(HintTask::PassThrough(v)) => Ok(v),
        Ok(HintTask::Ecrecover(inp)) => Ok(inp.z.to_vec()),
        Err(e) => Err(e),
    }
}

/// Runs one batch of the processor that hands its sink one vector per batch, on one
/// thread: dispatched hints are completed at once. What the batch hands the sink is
/// pushed on `sink`.
fn run_batch(
    state: &mut HintProcessorState,
    hints: &[u64],
    first_batch: bool,
    sink: &mut Vec<Vec<u64>>,
) -> Result<bool, HintError> {
    let mut batch = HintBatch::new(hints.to_vec(), first_batch);
    loop {
        match batch.step(state) {
            BatchStep::Finished => break,
            BatchStep::Dispatched { hint, generation, seq_id, .. } => {
                if state.complete(generation, seq_id, work(&hint)) {
                    state.drain_ready();
                }
            }
            BatchStep::AwaitEnd { .. } => {
                let waited = state.completion_status().unwrap_or(Ok(()));
                batch.close_end(waited)?;
                break;
            }
            BatchStep::Failed(e) => return Err(e),
            BatchStep::Started { .. } | BatchStep::Completed { .. } => {}
        }
    }
    let has_end = batch.has_end();
    if let Some(v) = batch.finish_batch() {
        sink.push(v);
    }
    Ok(has_end)
}

/// Runs one batch of the processor that reads hint types as hint codes and hands its sink
/// each result on its own, on one thread.
fn run_code_batch(
    state: &mut HintProcessorState,
    hints: &[u64],
    first_batch: bool,
    out: &mut Vec<Vec<u64>>,
) -> Result<bool, HintError> {
    let mut idx = 0;
    loop {
        let step = state.process_code_step(hints, idx, first_batch);
        match step {
            BatchStep::Finished => {
                drain(state, out);
                return Ok(false);
            }
            BatchStep::Started { next } => idx = next,
            BatchStep::Completed { next, .. } => idx = next,
            BatchStep::Dispatched { hint, generation, seq_id, next } => {
                state.complete(generation, seq_id, work(&hint));
                idx = next;
            }
            BatchStep::AwaitEnd { next } => {
                drain(state, out);
                if let Some(Err(e)) = state.completion_status() {
                    return Err(e);
                }
                return finish_end(next, hints.len());
            }
            BatchStep::Failed(e) => return Err(e),
        }
        drain(state, out);
    }
}

#[test]
fn hints_processor_test_single_result_hint_non_blocking() {
    let mut p = HintProcessorState::new();
    let mut out = Vec::new();
    let data = vec![make_header(HINTS_TYPE_RESULT, 2), 0x111, 0x222];
    assert!(run_batch(&mut p, &data, false, &mut out).is_ok());
    assert_eq!(p.completion_status(), Some(Ok(())));
    assert_eq!(p.pending_len(), 0);
    assert_eq!(p.next_drain_seq(), 1);
    assert_eq!(out, vec![vec![0x111, 0x222]]);
}

#[test]
fn hints_processor_test_multiple_hints_ordered_output() {
    let mut p = HintProcessorState::new();
    let mut out = Vec::new();
    let data = vec![
        make_header(HINTS_TYPE_RESULT, 1),
        0x111,
        make_header(HINTS_TYPE_RESULT, 1),
        0x222,
        make_header(HINTS_TYPE_RESULT, 1),
        0x333,
    ];
    assert!(run_batch(&mut p, &data, false, &mut out).is_ok());
    assert_eq!(p.completion_status(), Some(Ok(())));
    assert_eq!(p.pending_len(), 0);
    assert_eq!(p.next_drain_seq(), 3);
    assert_eq!(out, vec![vec![0x111, 0x222, 0x333]]);
}

#[test]
fn hints_processor_test_multiple_calls_global_sequence() {
    let mut p = HintProcessorState::new();
    let mut out = Vec::new();
    let data1 = vec![make_header(HINTS_TYPE_RESULT, 1), 0xAAA];
    let data2 = vec![make_header(HINTS_TYPE_RESULT, 1), 0xBBB];
    assert!(run_batch(&mut p, &data1, false, &mut out).is_ok());
    assert!(run_batch(&mut p, &data2, false, &mut out).is_ok());
    assert_eq!(p.completion_status(), Some(Ok(())));
    assert_eq!(p.next_drain_seq(), 2);
    assert_eq!(p.pending_len(), 0);
}

#[test]
fn hints_processor_test_empty_input_ok() {
    let mut p = HintProcessorState::new();
    let mut out = Vec::new();
    let data: Vec<u64> = vec![];
    assert_eq!(run_batch(&mut p, &data, false, &mut out), Ok(false));
    assert_eq!(p.completion_status(), Some(Ok(())));
    assert_eq!(p.next_drain_seq(), 0);
}

#[test]
fn hints_processor_test_unknown_hint_type_returns_error() {
    let mut p = HintProcessorState::new();
    let mut out = Vec::new();
    let data = vec![make_header(999, 1), 0x1234];
    let result = run_batch(&mut p, &data, false, &mut out);
    assert_eq!(result, Err(HintError::InvalidHintType(999)));
    assert!(result.unwrap_err().message().contains("Invalid hint type"));
    assert!(out.is_empty());
}

#[test]
fn hints_processor_test_error_stops_wait() {
    let mut p = HintProcessorState::new();
    let mut out = Vec::new();
    let data = vec![make_header(HINTS_TYPE_RESULT, 1), 0x111, make_header(999, 0)];
    let result = run_batch(&mut p, &data, false, &mut out);
    assert_eq!(result, Err(HintError::InvalidHintType(999)));
    assert!(result.unwrap_err().message().contains("Invalid hint type"));
    assert!(out.is_empty());
}

#[test]
fn hints_processor_test_reset_clears_error() {
    let mut p = HintProcessorState::new();
    let mut out = Vec::new();
    let bad = vec![make_header(999, 0)];
    let result = run_batch(&mut p, &bad, false, &mut out);
    assert_eq!(result, Err(HintError::InvalidHintType(999)));
    assert!(result.unwrap_err().message().contains("Invalid hint type"));
    p.reset();
    assert!(!p.error_flag());
    let good = vec![make_header(HINTS_TYPE_RESULT, 1), 0x42];
    assert!(run_batch(&mut p, &good, false, &mut out).is_ok());
    assert_eq!(p.completion_status(), Some(Ok(())));
    assert_eq!(p.next_drain_seq(), 1);
}

#[test]
fn hints_processor_test_stream_start_resets_state() {
    let mut p = HintProcessorState::new();
    let mut out = Vec::new();
    let batch1 = vec![make_header(HINTS_TYPE_RESULT, 1), 0x01];
    run_batch(&mut p, &batch1, false, &mut out).unwrap();
    assert_eq!(p.next_drain_seq(), 1);
    let generation = p.generation();
    let start = vec![make_header(CTRL_START, 0)];
    run_batch(&mut p, &start, true, &mut out).unwrap();
    assert_eq!(p.next_drain_seq(), 0);
    assert_eq!(p.pending_len(), 0);
    assert_eq!(p.generation(), generation + 1);
    let batch2 = vec![make_header(HINTS_TYPE_RESULT, 1), 0x02];
    run_batch(&mut p, &batch2, false, &mut out).unwrap();
    let end = vec![make_header(CTRL_END, 0)];
    assert_eq!(run_batch(&mut p, &end, false, &mut out), Ok(true));
    assert_eq!(p.next_drain_seq(), 1);
}

#[test]
fn hints_processor_test_stream_end_waits_until_completion() {
    let mut p = HintProcessorState::new();
    let mut out = Vec::new();
    let data = vec![make_header(HINTS_TYPE_RESULT, 1), 0x10, make_header(HINTS_TYPE_RESULT, 1), 0x20];
    run_batch(&mut p, &data, false, &mut out).unwrap();
    let end = vec![make_header(CTRL_END, 0)];
    assert_eq!(run_batch(&mut p, &end, false, &mut out), Ok(true));
    assert_eq!(p.pending_len(), 0);
    assert_eq!(p.next_drain_seq(), 2);
    assert_eq!(p.completion_status(), Some(Ok(())));
}

#[test]
fn hints_processor_test_stream_cancel_returns_error() {
    let mut p = HintProcessorState::new();
    let mut out = Vec::new();
    let cancel = vec![make_header(CTRL_CANCEL, 0)];
    let result = run_batch(&mut p, &cancel, false, &mut out);
    assert_eq!(result, Err(HintError::StreamCancelled));
    assert!(result.unwrap_err().message().contains("cancelled"));
    assert!(p.error_flag());
}

#[test]
fn hints_processor_test_stream_error_signal_returns_error() {
    let mut p = HintProcessorState::new();
    let mut out = Vec::new();
    let signal = vec![make_header(CTRL_ERROR, 0)];
    let result = run_batch(&mut p, &signal, false, &mut out);
    assert_eq!(result, Err(HintError::StreamErrorSignalled));
    assert!(result.unwrap_err().message().contains("error"));
    assert!(p.error_flag());
}

#[test]
fn start_outside_first_batch_or_position_is_refused() {
    let mut p = HintProcessorState::new();
    let mut out = Vec::new();
    let start = vec![make_header(CTRL_START, 0)];
    assert_eq!(run_batch(&mut p, &start, false, &mut out), Err(HintError::StartNotInFirstBatch));
    let late = vec![make_header(HINTS_TYPE_RESULT, 1), 7, make_header(CTRL_START, 0)];
    let mut q = HintProcessorState::new();
    assert_eq!(run_batch(&mut q, &late, true, &mut out), Err(HintError::StartNotFirst { index: 2 }));
}

#[test]
fn end_must_be_last() {
    let mut p = HintProcessorState::new();
    let mut out = Vec::new();
    let data = vec![make_header(CTRL_END, 0), make_header(HINTS_TYPE_RESULT, 1), 5];
    assert_eq!(run_batch(&mut p, &data, false, &mut out), Err(HintError::EndNotLast { remaining: 2 }));
    assert_eq!(finish_end(3, 3), Ok(true));
}

#[test]
fn results_drain_in_sequence_order_whatever_the_completion_order() {
    let mut p = HintProcessorState::new();
    let data = vec![make_header(HINTS_TYPE_ECRECOVER, 20)];
    let mut stream = data.clone();
    stream.extend((0..20u64).map(|i| i + 1));
    stream.push(make_header(HINTS_TYPE_ECRECOVER, 20));
    stream.extend((0..20u64).map(|i| i + 100));
    let first = p.process_step(&stream, 0, false);
    let second = p.process_step(&stream, 21, false);
    let (g1, s1) = match first {
        BatchStep::Dispatched { generation, seq_id, .. } => (generation, seq_id),
        _ => panic!("expected a dispatched hint"),
    };
    let (g2, s2) = match second {
        BatchStep::Dispatched { generation, seq_id, .. } => (generation, seq_id),
        _ => panic!("expected a dispatched hint"),
    };
    assert_eq!((s1, s2), (0, 1));
    assert!(p.complete(g2, s2, Ok(vec![2])));
    assert!(p.drain_next().is_none());
    assert!(p.complete(g1, s1, Ok(vec![1])));
    assert_eq!(p.drain_ready(), vec![vec![1], vec![2]]);
    assert_eq!(p.next_drain_seq(), 2);
}

#[test]
fn stale_worker_results_are_dropped() {
    let mut p = HintProcessorState::new();
    let (generation, seq) = p.reserve();
    p.reset();
    assert!(!p.complete(generation, seq, Ok(vec![9])));
    assert_eq!(p.pending_len(), 0);
}

#[test]
fn failed_result_sets_the_error_flag() {
    let mut p = HintProcessorState::new();
    let (generation, seq) = p.reserve();
    assert!(p.complete(generation, seq, Err(HintError::UnknownHintType(7))));
    assert_eq!(p.drain_next(), Some(Err(HintError::UnknownHintType(7))));
    assert!(p.error_flag());
    assert_eq!(p.completion_status(), Some(Err(HintError::StoppedByPreviousError)));
}

#[test]
fn ecrecover_hint_splits_its_fields() {
    let mut data = vec![make_header(HINTS_TYPE_ECRECOVER, 20)];
    data.extend(0..20u64);
    let hint = PrecompileHint::from_u64_slice(&data, 0).unwrap();
    match process_hint(&hint).unwrap() {
        HintTask::Ecrecover(inp) => {
            assert_eq!(inp.pk, [0, 1, 2, 3, 4, 5, 6, 7]);
            assert_eq!(inp.z, [8, 9, 10, 11]);
            assert_eq!(inp.r, [12, 13, 14, 15]);
            assert_eq!(inp.s, [16, 17, 18, 19]);
        }
        HintTask::PassThrough(_) => panic!("expected an ecrecover task"),
    }
    let short = vec![make_header(HINTS_TYPE_ECRECOVER, 2), 1, 2];
    let hint = PrecompileHint::from_u64_slice(&short, 0).unwrap();
    assert!(matches!(
        process_hint(&hint),
        Err(HintError::InvalidHintLength { hint: HintName::Ecrecover, expected: 20, got: 2 })
    ));
    let unknown = vec![make_header(3, 0)];
    let hint = PrecompileHint::from_u64_slice(&unknown, 0).unwrap();
    assert!(matches!(process_hint(&hint), Err(HintError::UnknownHintType(3))));
}

#[test]
fn sequential_tasks_follow_the_stream() {
    let data = vec![make_header(HINTS_TYPE_RESULT, 2), 4, 5, make_header(HINTS_TYPE_RESULT, 0)];
    match sequential_hint_task(&data, 0) {
        Ok((HintTask::PassThrough(v), next)) => {
            assert_eq!(v, vec![4, 5]);
            assert_eq!(next, 3);
        }
        _ => panic!("expected a result hint"),
    }
    assert!(matches!(sequential_hint_task(&data, 3), Err(HintError::EmptyHint)));
    let truncated = vec![make_header(HINTS_TYPE_RESULT, 4), 1];
    assert!(matches!(
        sequential_hint_task(&truncated, 0),
        Err(HintError::TruncatedHint { length: 4, available: 1 })
    ));
}

#[test]
fn relay_batches_are_checked() {
    let ok = vec![make_header(CTRL_START, 0), make_header(HINTS_TYPE_RESULT, 1), 3, make_header(CTRL_END, 0)];
    assert_eq!(
        validate_relay_batch(&ok, true),
        Ok(RelayBatch { has_ctrl_start: true, has_ctrl_end: true })
    );
    assert_eq!(validate_relay_batch(&ok, false), Err(HintError::StartNotInFirstBatch));
    let after_end = vec![make_header(CTRL_END, 0), make_header(HINTS_TYPE_RESULT, 1), 3];
    assert_eq!(
        validate_relay_batch(&after_end, false),
        Err(HintError::HintAfterEnd { hint_type: HINTS_TYPE_RESULT, index: 1 })
    );
    let bad_type = vec![make_header(6, 0)];
    assert_eq!(validate_relay_batch(&bad_type, false), Err(HintError::InvalidHintType(6)));
    let plain = vec![make_header(HINTS_TYPE_RESULT, 1), 3];
    assert_eq!(
        validate_relay_batch(&plain, false),
        Ok(RelayBatch { has_ctrl_start: false, has_ctrl_end: false })
    );
    assert_eq!(hints_payload(&[0x0102030405060708]), vec![8, 7, 6, 5, 4, 3, 2, 1]);
}

#[test]
fn batch_output_is_handed_once_per_successful_batch() {
    let mut p = HintProcessorState::new();
    let mut out = Vec::new();
    assert_eq!(run_batch(&mut p, &[], false, &mut out), Ok(false));
    assert!(out.is_empty());
    let data = vec![make_header(HINTS_TYPE_RESULT, 1), 0x10, make_header(HINTS_TYPE_RESULT, 1), 0x20];
    assert_eq!(run_batch(&mut p, &data, false, &mut out), Ok(false));
    assert_eq!(out, vec![vec![0x10, 0x20]]);
    assert_eq!(run_batch(&mut p, &[make_header(CTRL_END, 0)], false, &mut out), Ok(true));
    assert_eq!(out.len(), 1);
    let late = vec![make_header(CTRL_END, 0), make_header(HINTS_TYPE_RESULT, 1), 7];
    let result = run_batch(&mut p, &late, false, &mut out);
    assert_eq!(result, Err(HintError::EndNotLast { remaining: 2 }));
    assert_eq!(result.unwrap_err().message(), "CTRL_END must be the last hint, but 2 bytes remain");
    assert_eq!(out.len(), 1);
}

#[test]
fn batch_output_leaves_out_dispatched_results() {
    let mut p = HintProcessorState::new();
    let mut out = Vec::new();
    let mut data = vec![make_header(HINTS_TYPE_RESULT, 1), 0x5];
    data.push(make_header(HINTS_TYPE_ECRECOVER, 20));
    data.extend(0..20u64);
    data.push(make_header(HINTS_TYPE_RESULT, 2));
    data.extend([0x6, 0x7]);
    assert_eq!(run_batch(&mut p, &data, false, &mut out), Ok(false));
    assert_eq!(out, vec![vec![0x5, 0x6, 0x7]]);
    assert_eq!(p.next_drain_seq(), 3);
}

#[test]
fn precompile_processor_refuses_unknown_hint_codes() {
    let mut p = HintProcessorState::new();
    let mut out = Vec::new();
    let data = vec![make_header(999, 1), 0x1234];
    let result = run_code_batch(&mut p, &data, false, &mut out);
    assert_eq!(result, Err(HintError::UnknownHintCode(999)));
    assert!(result.unwrap_err().message().contains("Invalid hint code"));
    let mut q = HintProcessorState::new();
    let data = vec![make_header(HINTS_TYPE_RESULT, 1), 0x111, make_header(999, 0)];
    let result = run_code_batch(&mut q, &data, false, &mut out);
    assert_eq!(result, Err(HintError::UnknownHintCode(999)));
    let mut r = HintProcessorState::new();
    let result = run_code_batch(&mut r, &[make_header(999, 0)], false, &mut out);
    assert!(result.unwrap_err().message().contains("Invalid hint code"));
    r.reset();
    assert!(!r.error_flag());
    assert!(run_code_batch(&mut r, &[make_header(HINTS_TYPE_RESULT, 1), 0x42], false, &mut out).is_ok());
    assert_eq!(r.completion_status(), Some(Ok(())));
    assert_eq!(r.next_drain_seq(), 1);
}

#[test]
fn precompile_processor_hands_each_result_on_its_own() {
    let mut p = HintProcessorState::new();
    let mut out = Vec::new();
    let data = vec![
        make_header(HINTS_TYPE_RESULT, 1),
        0x111,
        make_header(HINTS_TYPE_RESULT, 1),
        0x222,
        make_header(HINTS_TYPE_RESULT, 1),
        0x333,
    ];
    assert_eq!(run_code_batch(&mut p, &data, false, &mut out), Ok(false));
    assert_eq!(out, vec![vec![0x111], vec![0x222], vec![0x333]]);
    assert_eq!(p.next_drain_seq(), 3);
    let end = vec![make_header(CTRL_END, 0)];
    assert_eq!(run_code_batch(&mut p, &end, false, &mut out), Ok(true));
}

#[test]
fn error_messages_spell_out_their_values() {
    assert_eq!(HintError::InvalidHintType(999).message(), "Invalid hint type: 999");
    assert_eq!(HintError::UnknownHintCode(999).message(), "Invalid hint code: 0x3e7");
    assert_eq!(HintError::InvalidBuiltInCode(0x2006).message(), "Invalid built-in hint code: 0x2006");
    assert_eq!(
        HintError::TruncatedHint { length: 4, available: 1 }.message(),
        "Slice too short for hint data: expected 4, got 1"
    );
    assert_eq!(
        HintError::InvalidHintLength { hint: HintName::Ecrecover, expected: 20, got: 0 }.message(),
        "Invalid ECRECOVER hint length: expected 20, got 0"
    );
    assert_eq!(HintError::StartNotFirst { index: 10 }.message(), "CTRL_START must be the first hint in the batch, but found at index 10");
}

#[test]
fn sequential_stream_output_concatenates_in_order() {
    let mut data = vec![make_header(HINTS_TYPE_RESULT, 2), 1, 2];
    data.push(make_header(HINTS_TYPE_ECRECOVER, 20));
    data.extend(100..120u64);
    data.extend([make_header(HINTS_TYPE_RESULT, 1), 3]);
    assert_eq!(check_sequential_hints(&data), Ok(()));
    let tasks = sequential_tasks(&data);
    assert_eq!(tasks.len(), 3);
    let out = assemble_outputs(&tasks, &[vec![9, 9]]);
    assert_eq!(out, vec![1, 2, 9, 9, 3]);
    let bad = vec![make_header(HINTS_TYPE_RESULT, 1), 1, make_header(HINTS_TYPE_RESULT, 0)];
    assert_eq!(check_sequential_hints(&bad), Err(HintError::EmptyHint));
    let unknown = vec![make_header(7, 1), 1];
    assert_eq!(check_sequential_hints(&unknown), Err(HintError::UnknownHintType(7)));
    let truncated = vec![make_header(HINTS_TYPE_RESULT, 3), 1];
    assert_eq!(check_sequential_hints(&truncated), Err(HintError::TruncatedHint { length: 3, available: 1 }));
    assert!(sequential_tasks(&[]).is_empty());
}

#[test]
fn nothing_reaches_the_sink_after_a_failed_hint() {
    let mut p = HintProcessorState::new();
    let (g, s0) = p.reserve();
    let (_, s1) = p.reserve();
    let (_, s2) = p.reserve();
    assert!(p.complete(g, s2, Ok(vec![3])));
    assert!(p.complete(g, s1, Err(HintError::UnknownHintType(9))));
    assert!(p.drain_for_sink().is_empty());
    assert!(p.complete(g, s0, Ok(vec![1])));
    assert_eq!(p.drain_for_sink(), vec![vec![1]]);
    assert!(p.error_flag());
    assert!(p.drain_for_sink().is_empty());
    assert_eq!(p.pending_len(), 1);
    p.reset();
    let (g, s) = p.reserve();
    assert!(p.complete(g, s, Ok(vec![4])));
    assert_eq!(p.drain_for_sink(), vec![vec![4]]);
}

#[test]
fn a_cancelled_stream_stays_stopped_until_reset() {
    let mut p = HintProcessorState::new();
    let mut out = Vec::new();
    let result = run_batch(&mut p, &[make_header(CTRL_CANCEL, 0)], false, &mut out);
    assert!(result.unwrap_err().message().contains("cancelled"));
    let later = vec![make_header(CTRL_START, 0), make_header(HINTS_TYPE_RESULT, 1), 7];
    let result = run_batch(&mut p, &later, true, &mut out);
    assert_eq!(result, Err(HintError::StoppedByPreviousError));
    assert_eq!(result.unwrap_err().message(), "Processing stopped due to previous error");
    assert!(out.is_empty());
    let mut q = HintProcessorState::new();
    let result = run_batch(&mut q, &[make_header(CTRL_ERROR, 0)], false, &mut out);
    assert!(result.unwrap_err().message().contains("error"));
    assert_eq!(run_batch(&mut q, &[make_header(HINTS_TYPE_RESULT, 1), 1], false, &mut out), Err(HintError::StoppedByPreviousError));
    assert!(out.is_empty());
}

#[test]
fn relayed_messages_follow_the_batch() {
    let both = RelayBatch { has_ctrl_start: true, has_ctrl_end: true };
    assert_eq!(relay_sends(&both), vec![StreamType::Start, StreamType::Data, StreamType::End]);
    let plain = RelayBatch { has_ctrl_start: false, has_ctrl_end: false };
    assert_eq!(relay_sends(&plain), vec![StreamType::Data]);
    let end = RelayBatch { has_ctrl_start: false, has_ctrl_end: true };
    assert_eq!(relay_sends(&end), vec![StreamType::Data, StreamType::End]);
}
