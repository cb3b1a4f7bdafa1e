use zisk_precompiles::regions_of_interest::{RegionsOfInterest, StatsCosts};
use zisk_precompiles::stats::{rank_pairs, Stats, StatsCostMark};

#[test]
fn region_contains_both_ends() {
    let r = RegionsOfInterest::new(0, 0x100, 0x1ff, "f");
    assert!(r.contains(0x100));
    assert!(r.contains(0x1ff));
    assert!(!r.contains(0x200));
    assert!(!r.contains(0xff));
    assert_eq!(r.name, "f");
}

#[test]
fn region_counts_steps_only_without_pending_calls() {
    let mut r = RegionsOfInterest::new(3, 0, 10, "g");
    r.inc_step();
    r.caller_call();
    r.inc_step();
    r.add_op(7);
    assert_eq!(r.get_steps(), 1);
    assert_eq!(r.get_ops_costs()[7], 0);
    r.return_call(2);
    r.inc_step();
    r.add_op(7);
    assert_eq!(r.get_steps(), 2);
    assert_eq!(r.get_ops_costs()[7], 1);
    assert_eq!(r.get_callstack_rc(), 0);
    assert_eq!(r.get_call_stack_depth(), Some(2));
}

#[test]
fn region_call_records_callers_and_least_depth() {
    let mut r = RegionsOfInterest::new(1, 0, 10, "h");
    r.call(Some(4), 5);
    r.call(Some(4), 3);
    r.call(None, 7);
    assert_eq!(r.calls, 3);
    let info = r.get_callers().get(&4).unwrap();
    assert_eq!((info.calls, info.steps), (2, 2));
    assert_eq!(r.last_caller_index, Some(4));
    assert_eq!(r.get_call_stack_depth(), Some(3));
    r.inc_step();
    let info = r.get_callers().get(&4).unwrap();
    assert_eq!((info.calls, info.steps), (2, 3));
}

#[test]
fn region_cost_formula() {
    let mut r = RegionsOfInterest::new(0, 0, 10, "c");
    r.inc_step();
    r.inc_step();
    r.update_costs(100, 20, 3, 10);
    assert_eq!(r.get_cost(), 143);
}

#[test]
fn delta_costs_charge_steps_since_the_snapshot() {
    let mut r = RegionsOfInterest::new(0, 0, 10, "d");
    let mut reference = StatsCosts::new();
    reference.steps = 10;
    let mut current = StatsCosts::new();
    current.steps = 25;
    assert_eq!(r.add_delta_costs(&reference, &current), Some(15));
    assert_eq!(r.get_steps(), 15);
    r.caller_call();
    assert_eq!(r.add_delta_costs(&reference, &current), None);
    assert_eq!(r.get_steps(), 15);
}

#[test]
fn cost_mark_starts_empty() {
    let m = StatsCostMark::new();
    assert!(m.start.is_none());
    assert!(m.costs.is_empty());
    assert_eq!(m.count, 0);
}

fn two_regions() -> Stats {
    let mut s = Stats::new();
    s.add_roi(0x1000, 0x10ff, "main");
    s.add_roi(0x2000, 0x20ff, "callee");
    s
}

#[test]
fn steps_inside_a_region_are_charged_to_it() {
    let mut s = two_regions();
    let regs = [0u64; 32];
    s.count_step();
    s.check_roi(0x1004, &regs);
    s.count_step();
    s.check_roi(0x1008, &regs);
    assert_eq!(s.current_roi, Some(0));
    assert_eq!(s.rois[0].get_steps(), 2);
    assert_eq!(s.rois[1].get_steps(), 0);
}

#[test]
fn call_and_return_charge_the_callee_steps_back_to_the_caller() {
    let mut s = two_regions();
    let mut regs = [0u64; 32];
    s.count_step();
    s.check_roi(0x1000, &regs);
    // a call into the callee region
    s.update_call_flags(true, true, 1, false, 0);
    regs[1] = 0x1008;
    s.count_step();
    s.check_roi(0x2000, &regs);
    assert_eq!(s.call_stack.len(), 1);
    assert_eq!(s.call_stack[0].ra, 0x1008);
    assert_eq!(s.call_stack[0].caller_roi_index, Some(0));
    assert_eq!(s.rois[0].get_callstack_rc(), 1);
    assert_eq!(s.rois[1].calls, 1);
    s.update_call_flags(false, false, 0, false, 0);
    s.count_step();
    s.check_roi(0x2004, &regs);
    assert_eq!(s.rois[1].get_steps(), 1);
    // the return to the caller
    s.update_call_flags(true, false, 0, true, 1);
    assert!(s.is_return);
    s.count_step();
    s.check_roi(0x1008, &regs);
    assert!(s.call_stack.is_empty());
    assert_eq!(s.rois[0].get_callstack_rc(), 0);
    assert_eq!(s.rois[1].get_steps(), 2);
    assert_eq!(s.rois[0].get_steps(), 1 + 2);
    assert_eq!(s.current_roi, Some(0));
}

#[test]
fn later_region_with_same_start_replaces_the_earlier() {
    let mut s = Stats::new();
    s.add_roi(0x10, 0x20, "a");
    s.add_roi(0x10, 0x30, "b");
    s.add_roi(0x05, 0x0f, "c");
    assert_eq!(s.rois_by_address, vec![(0x05, 2), (0x10, 1)]);
    let regs = [0u64; 2];
    s.check_roi(0x15, &regs);
    assert_eq!(s.current_roi, Some(1));
    s.check_roi(0x04, &regs);
    assert_eq!(s.current_roi, None);
}

#[test]
fn top_regions_rank_by_value_then_index() {
    let mut s = Stats::new();
    s.add_roi(0x0, 0xf, "a");
    s.add_roi(0x10, 0x1f, "b");
    s.add_roi(0x20, 0x2f, "c");
    let regs = [0u64; 2];
    for pc in [0x10u32, 0x11, 0x20, 0x21, 0x0] {
        s.count_step();
        s.check_roi(pc, &regs);
    }
    assert_eq!(s.get_top_rois(true), vec![(1, 2), (2, 2), (0, 1)]);
    s.set_top_rois(2);
    assert_eq!(s.get_top_rois(true), vec![(1, 2), (2, 2)]);
}

#[test]
fn operation_counters() {
    let mut s = two_regions();
    let regs = [0u64; 2];
    s.check_roi(0x1000, &regs);
    s.count_op(9, false, true);
    s.count_op(9, true, false);
    assert_eq!(s.costs.ops[9], 1);
    assert_eq!(s.costs.frops_ops[9], 1);
    assert_eq!(s.frops, 1);
    assert_eq!(s.rois[0].get_ops_costs()[9], 1);
}

#[test]
fn steps_that_would_break_the_tracker_are_refused() {
    let mut s = two_regions();
    let mut regs = [0u64; 32];
    assert!(s.check_roi_allowed(0x1000));
    s.count_step();
    s.check_roi(0x1000, &regs);
    s.update_call_flags(true, true, 1, false, 0);
    regs[1] = 0x1008;
    assert!(s.check_roi_allowed(0x2000));
    s.count_step();
    s.check_roi(0x2000, &regs);
    // a return that lands in a region other than the caller's
    s.update_call_flags(true, false, 0, true, 1);
    assert!(!s.check_roi_allowed(0x2010));
    assert!(s.check_roi_allowed(0x1008));
    // a step outside every region is always allowed
    assert!(s.check_roi_allowed(0x10));
}

#[test]
fn callers_rank_by_calls_then_index() {
    let pairs = vec![(1, 4), (2, 9), (5, 4), (7, 1), (8, 9)];
    assert_eq!(rank_pairs(&pairs, 3), vec![(2, 9), (8, 9), (1, 4)]);
    assert_eq!(rank_pairs(&pairs, 10).len(), 5);
    assert!(rank_pairs(&[], 2).is_empty());
}
