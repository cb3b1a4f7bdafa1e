//! Tracking of the region of interest that the emulator is executing, with a shadow call
//! stack: each step is charged to the region that contains the program counter, calls and
//! returns between regions are recorded, and the steps run inside a call are charged back
//! to the calling region when the call returns.

use crate::regions_of_interest::{
    roi_add_op, roi_add_steps, roi_call, roi_caller_call, roi_inc_step, roi_new,
    roi_return_call, roi_update_depth, roi_can_call, roi_can_step, roi_wf, lemma_call_keeps_wf,
    lemma_inc_step_keeps_wf, lemma_operations_keep_wf, lemma_new_wf, RegionsOfInterest, RoiView,
    StatsCosts,
};
use vstd::prelude::*;

verus! {


/// Index of the return address register (x1, ra).
pub const REG_RA_IDX: usize = 1;

/// A pending call on the shadow call stack.
#[derive(Debug)]
pub struct CallStackEntry {
    pub pc: u64,
    pub ra: u64,
    pub caller_roi_index: Option<usize>,
    pub called_roi_index: Option<usize>,
    pub func_name: String,
    pub costs: StatsCosts,
}

/// A call stack entry as plain values.
pub struct CallView {
    pub pc: u64,
    pub ra: u64,
    pub caller_roi_index: Option<usize>,
    pub called_roi_index: Option<usize>,
    pub func_name: Seq<char>,
    pub costs: StatsCosts,
}

impl View for CallStackEntry {
    type V = CallView;

    open spec fn view(&self) -> CallView {
        CallView {
            pc: self.pc,
            ra: self.ra,
            caller_roi_index: self.caller_roi_index,
            called_roi_index: self.called_roi_index,
            func_name: self.func_name@,
            costs: self.costs,
        }
    }
}

/// Snapshots of the costs taken at marks of the execution.
#[derive(Debug)]
pub struct StatsCostMark {
    pub start: Option<StatsCosts>,
    pub costs: Vec<StatsCosts>,
    pub count: u64,
}

impl StatsCostMark {
    /// No snapshot taken.
    pub fn new() -> (m: Self)
        ensures
            m.start is None,
            m.costs@.len() == 0,
            m.count == 0,
    {
        StatsCostMark { start: None, costs: Vec::new(), count: 0 }
    }
}

/// Statistics of the regions of interest of an execution.
pub struct Stats {
    /// Counter of the frequent operations.
    pub frops: u64,
    /// The costs of the whole execution so far.
    pub costs: StatsCosts,
    /// The regions, by index.
    pub rois: Vec<RegionsOfInterest>,
    /// `(from_pc, region index)` of every region, sorted by `from_pc` with no key twice;
    /// a later region with the same `from_pc` replaces the earlier one.
    pub rois_by_address: Vec<(u32, u32)>,
    /// The region of the last step.
    pub current_roi: Option<usize>,
    /// How many regions a ranking keeps.
    pub top_rois: usize,
    /// The shadow call stack.
    pub call_stack: Vec<CallStackEntry>,
    /// Whether the last operation was a call.
    pub is_call: bool,
    /// Whether the last operation was a return.
    pub is_return: bool,
}

/// The statistics as plain values.
#[verifier::ext_equal]
pub struct StatsView {
    pub frops: u64,
    pub costs: StatsCosts,
    pub rois: Seq<RoiView>,
    pub table: Seq<(u32, u32)>,
    pub current_roi: Option<usize>,
    pub top_rois: usize,
    pub call_stack: Seq<CallView>,
    pub is_call: bool,
    pub is_return: bool,
}

impl View for Stats {
    type V = StatsView;

    open spec fn view(&self) -> StatsView {
        StatsView {
            frops: self.frops,
            costs: self.costs,
            rois: self.rois@.map_values(|r: RegionsOfInterest| r@),
            table: self.rois_by_address@,
            current_roi: self.current_roi,
            top_rois: self.top_rois,
            call_stack: self.call_stack@.map_values(|e: CallStackEntry| e@),
            is_call: self.is_call,
            is_return: self.is_return,
        }
    }
}

/// The keys of `t` strictly increase.
pub open spec fn table_sorted(t: Seq<(u32, u32)>) -> bool {
    forall|i: int, j: int| 0 <= i < j < t.len() ==> #[trigger] t[i].0 < #[trigger] t[j].0
}

/// Whether `t` maps `k` to `v`.
pub open spec fn table_has(t: Seq<(u32, u32)>, k: u32, v: u32) -> bool {
    exists|i: int| 0 <= i < t.len() && #[trigger] t[i] == (k, v)
}

/// The value of the greatest key of the sorted table `t` that is at most `pc`.
pub open spec fn floor_entry(t: Seq<(u32, u32)>, pc: u32) -> Option<u32>
    decreases t.len(),
{
    if t.len() == 0 {
        None
    } else if t.last().0 <= pc {
        Some(t.last().1)
    } else {
        floor_entry(t.drop_last(), pc)
    }
}

/// The region index that the table gives for `pc`.
pub open spec fn roi_at(t: Seq<(u32, u32)>, pc: u32) -> Option<usize> {
    match floor_entry(t, pc) {
        Some(i) => Some(i as usize),
        None => None,
    }
}

/// Whether region `r` contains `pc`.
pub open spec fn roi_contains(r: RoiView, pc: u32) -> bool {
    r.from_pc <= pc && pc <= r.to_pc
}

impl StatsView {
    /// Every index in the table names a region, and the table is sorted.
    pub open spec fn wf(self) -> bool {
        &&& table_sorted(self.table)
        &&& forall|i: int| 0 <= i < self.table.len() ==> (#[trigger] self.table[i]).1 < self.rois.len()
        &&& self.current_roi matches Some(r) ==> r < self.rois.len()
        &&& forall|j: int| 0 <= j < self.rois.len() ==> roi_wf(#[trigger] self.rois[j])
    }

    /// The statistics with region `r` replaced by `v`.
    pub open spec fn with_roi(self, r: int, v: RoiView) -> StatsView {
        StatsView { rois: self.rois.update(r, v), ..self }
    }
}

/// Replacing a region by a well-formed one keeps the statistics well formed.
proof fn lemma_with_roi_wf(s: StatsView, r: int, v: RoiView)
    requires
        s.wf(),
        0 <= r < s.rois.len(),
        roi_wf(v),
    ensures
        s.with_roi(r, v).wf(),
{
    let t = s.with_roi(r, v);
    assert forall|j: int| 0 <= j < t.rois.len() implies roi_wf(#[trigger] t.rois[j]) by {
        if j != r {
            assert(t.rois[j] == s.rois[j]);
        }
    }
}

/// A pending return is popped, charging one step to the current region.
pub open spec fn pop_return(s: StatsView) -> (StatsView, Option<CallView>) {
    if s.is_return && s.call_stack.len() > 0 {
        let e = s.call_stack.last();
        let s1 = StatsView { call_stack: s.call_stack.drop_last(), ..s };
        match s.current_roi {
            Some(r) => (s1.with_roi(r as int, roi_inc_step(s.rois[r as int])), Some(e)),
            None => (s1, Some(e)),
        }
    } else {
        (s, None)
    }
}

/// The return `e` lands in region `r`: the region's pending call is closed, and unless the
/// call returns to the region it was made to, the steps run since the call are charged
/// to `r` (when no other call of `r` is pending).
pub open spec fn land_return(s: StatsView, r: int, e: CallView) -> StatsView {
    let v = roi_return_call(s.rois[r], s.call_stack.len() as usize);
    if e.called_roi_index == Some(r as usize) {
        s.with_roi(r, v)
    } else if v.call_stack_rc == 0 {
        s.with_roi(r, roi_add_steps(v, s.costs.steps - e.costs.steps))
    } else {
        s.with_roi(r, v)
    }
}

/// The call into region `r` at `pc` from the previous region `prev`, with return address
/// `ra`.
pub open spec fn enter_call(s: StatsView, r: int, prev: Option<usize>, pc: u32, ra: u64) -> StatsView {
    let s1 = match prev {
        Some(p) => s.with_roi(p as int, roi_caller_call(s.rois[p as int])),
        None => s,
    };
    let entry = CallView {
        pc: pc as u64,
        ra,
        caller_roi_index: prev,
        called_roi_index: Some(r as usize),
        func_name: s1.rois[r].name,
        costs: s1.costs,
    };
    let s2 = StatsView { call_stack: s1.call_stack.push(entry), ..s1 };
    s2.with_roi(r, roi_call(s2.rois[r], Some(r as usize), s2.call_stack.len() as usize))
}

/// A jump into region `r` at `pc` that is neither a call nor a return: a tail call that
/// retargets the top of the call stack.
pub open spec fn enter_jump(s: StatsView, r: int, pc: u32) -> StatsView {
    let s1 = if s.call_stack.len() > 0 {
        let top = s.call_stack.last();
        StatsView {
            call_stack: s.call_stack.update(
                s.call_stack.len() - 1,
                CallView { pc: pc as u64, called_roi_index: Some(r as usize), ..top },
            ),
            ..s
        }
    } else {
        s
    };
    s1.with_roi(r, roi_update_depth(roi_inc_step(s1.rois[r]), s1.call_stack.len() as usize))
}

/// The statistics after a step at `pc`, with `ra` in the return address register.
pub open spec fn check_roi_spec(s0: StatsView, pc: u32, ra: u64) -> StatsView {
    let (s1, ret) = pop_return(s0);
    let prev = s0.current_roi;
    let cur = roi_at(s0.table, pc);
    let s2 = StatsView { current_roi: cur, ..s1 };
    match cur {
        None => s2,
        Some(r) => if roi_contains(s2.rois[r as int], pc) && !s0.is_call && !s0.is_return {
            s2.with_roi(r as int, roi_inc_step(s2.rois[r as int]))
        } else {
            let s3 = match ret {
                Some(e) => land_return(s2, r as int, e),
                None => s2,
            };
            if roi_contains(s3.rois[r as int], pc) {
                if s0.is_call {
                    enter_call(s3, r as int, prev, pc, ra)
                } else if !s0.is_return {
                    enter_jump(s3, r as int, pc)
                } else {
                    s3
                }
            } else {
                s3
            }
        },
    }
}

/// The return `e` into region `r` neither breaks an invariant of the tracker nor
/// overflows a counter.
pub open spec fn land_return_ok(s: StatsView, r: int, e: CallView) -> bool {
    let v = roi_return_call(s.rois[r], s.call_stack.len() as usize);
    &&& e.caller_roi_index == Some(r as usize)
    &&& s.rois[r].call_stack_rc > 0
    &&& e.called_roi_index != Some(r as usize) ==> {
        &&& v.steps <= s.costs.steps
        &&& v.call_stack_rc == 0 ==> {
            &&& e.costs.steps <= s.costs.steps
            &&& v.steps + (s.costs.steps - e.costs.steps) <= s.costs.steps
        }
    }
}

/// A step at `pc` neither breaks an invariant of the tracker nor overflows a counter.
pub open spec fn check_roi_ok(s0: StatsView, pc: u32) -> bool {
    let (s1, ret) = pop_return(s0);
    let prev = s0.current_roi;
    let cur = roi_at(s0.table, pc);
    let s2 = StatsView { current_roi: cur, ..s1 };
    &&& (s0.is_return && s0.call_stack.len() > 0) ==> (s0.current_roi matches Some(c) ==> roi_can_step(
        s0.rois[c as int],
    ))
    &&& match cur {
        None => true,
        Some(r) => if roi_contains(s2.rois[r as int], pc) && !s0.is_call && !s0.is_return {
            roi_can_step(s2.rois[r as int])
        } else {
            let s3 = match ret {
                Some(e) => land_return(s2, r as int, e),
                None => s2,
            };
            &&& ret matches Some(e) ==> land_return_ok(s2, r as int, e)
            &&& roi_contains(s3.rois[r as int], pc) ==> {
                &&& s0.is_call ==> {
                    let s4 = match prev {
                        Some(p) => s3.with_roi(p as int, roi_caller_call(s3.rois[p as int])),
                        None => s3,
                    };
                    &&& !s0.is_return
                    &&& prev matches Some(p) ==> s3.rois[p as int].call_stack_rc < usize::MAX
                    &&& roi_can_call(s4.rois[r as int], Some(r))
                }
                &&& (!s0.is_call && !s0.is_return) ==> roi_can_step(s3.rois[r as int])
            }
        },
    }
}

/// The partition point of the sorted table at `pc` gives the floor entry: the last of the
/// entries whose keys are at most `pc`.
proof fn lemma_floor_at_partition(t: Seq<(u32, u32)>, pc: u32, p: int)
    requires
        table_sorted(t),
        0 <= p <= t.len(),
        forall|i: int| 0 <= i < p ==> (#[trigger] t[i]).0 <= pc,
        forall|i: int| p <= i < t.len() ==> (#[trigger] t[i]).0 > pc,
    ensures
        floor_entry(t, pc) == (if p > 0 { Some(t[p - 1].1) } else { None }),
    decreases t.len(),
{
    if t.len() > 0 && t.len() > p {
        let d = t.drop_last();
        assert forall|i: int, j: int| 0 <= i < j < d.len() implies #[trigger] d[i].0 < #[trigger] d[j].0 by {
            assert(t[i].0 < t[j].0);
        }
        assert forall|i: int| 0 <= i < p implies (#[trigger] d[i]).0 <= pc by {
            assert(t[i].0 <= pc);
        }
        assert forall|i: int| p <= i < d.len() implies (#[trigger] d[i]).0 > pc by {
            assert(t[i].0 > pc);
        }
        assert(t[t.len() - 1].0 > pc);
        lemma_floor_at_partition(d, pc, p);
    } else if t.len() > 0 {
        assert(t[t.len() - 1].0 <= pc);
    }
}

/// The floor entry of a sorted table is the value of its greatest key that is at most `pc`.
pub proof fn lemma_floor_entry_is_greatest_key(t: Seq<(u32, u32)>, pc: u32)
    requires
        table_sorted(t),
    ensures
        floor_entry(t, pc) matches Some(v) ==> exists|i: int|
            0 <= i < t.len() && #[trigger] t[i].1 == v && t[i].0 <= pc && forall|j: int|
                i < j < t.len() ==> (#[trigger] t[j]).0 > pc,
        floor_entry(t, pc) is None ==> forall|i: int| 0 <= i < t.len() ==> (#[trigger] t[i]).0 > pc,
    decreases t.len(),
{
    if t.len() > 0 {
        let d = t.drop_last();
        assert forall|i: int, j: int| 0 <= i < j < d.len() implies #[trigger] d[i].0 < #[trigger] d[j].0 by {
            assert(t[i].0 < t[j].0);
        }
        lemma_floor_entry_is_greatest_key(d, pc);
        if t.last().0 <= pc {
            let i = t.len() - 1;
            assert(t[i].1 == t.last().1);
        } else {
            if let Some(v) = floor_entry(d, pc) {
                let i = choose|i: int|
                    0 <= i < d.len() && #[trigger] d[i].1 == v && d[i].0 <= pc && forall|j: int|
                        i < j < d.len() ==> (#[trigger] d[j]).0 > pc;
                assert(t[i].1 == v && t[i].0 <= pc);
                assert forall|j: int| i < j < t.len() implies (#[trigger] t[j]).0 > pc by {
                    if j < d.len() {
                        assert(d[j].0 > pc);
                    }
                }
            } else {
                assert forall|i: int| 0 <= i < t.len() implies (#[trigger] t[i]).0 > pc by {
                    if i < d.len() {
                        assert(d[i].0 > pc);
                    }
                }
            }
        }
    }
}

/// The region index for `pc`: the value of the greatest key of the sorted table that is at
/// most `pc`.
fn floor_lookup(t: &Vec<(u32, u32)>, pc: u32) -> (r: Option<u32>)
    requires
        table_sorted(t@),
    ensures
        r == floor_entry(t@, pc),
{
    let mut lo: usize = 0;
    let mut hi: usize = t.len();
    while lo < hi
        invariant
            0 <= lo <= hi <= t@.len(),
            table_sorted(t@),
            forall|i: int| 0 <= i < lo ==> (#[trigger] t@[i]).0 <= pc,
            forall|i: int| hi <= i < t@.len() ==> (#[trigger] t@[i]).0 > pc,
        decreases hi - lo,
    {
        let mid = lo + (hi - lo) / 2;
        if t[mid].0 <= pc {
            assert forall|i: int| 0 <= i < mid + 1 implies (#[trigger] t@[i]).0 <= pc by {
                if i < mid {
                    assert(t@[i].0 < t@[mid as int].0);
                }
            }
            lo = mid + 1;
        } else {
            assert forall|i: int| mid <= i < t@.len() implies (#[trigger] t@[i]).0 > pc by {
                if i > mid {
                    assert(t@[mid as int].0 < t@[i].0);
                }
            }
            hi = mid;
        }
    }
    proof {
        lemma_floor_at_partition(t@, pc, lo as int);
    }
    if lo > 0 {
        Some(t[lo - 1].1)
    } else {
        None
    }
}

/// Maps `key` to `value` in the sorted table: replaces the value of an equal key, or
/// inserts the entry where it keeps the table sorted.
fn table_insert(t: &mut Vec<(u32, u32)>, key: u32, value: u32)
    requires
        table_sorted(old(t)@),
    ensures
        table_sorted(final(t)@),
        forall|k: u32, v: u32|
            table_has(final(t)@, k, v) <==> ((k == key && v == value) || (k != key && table_has(
                old(t)@,
                k,
                v,
            ))),
{
    let ghost t0 = t@;
    assert(t0 == old(t)@);
    let mut lo: usize = 0;
    let mut hi: usize = t.len();
    while lo < hi
        invariant
            0 <= lo <= hi <= t@.len(),
            t@ == t0,
            table_sorted(t@),
            forall|i: int| 0 <= i < lo ==> (#[trigger] t@[i]).0 < key,
            forall|i: int| hi <= i < t@.len() ==> (#[trigger] t@[i]).0 >= key,
        decreases hi - lo,
    {
        let mid = lo + (hi - lo) / 2;
        if t[mid].0 < key {
            assert forall|i: int| 0 <= i < mid + 1 implies (#[trigger] t@[i]).0 < key by {
                if i < mid {
                    assert(t@[i].0 < t@[mid as int].0);
                }
            }
            lo = mid + 1;
        } else {
            assert forall|i: int| mid <= i < t@.len() implies (#[trigger] t@[i]).0 >= key by {
                if i > mid {
                    assert(t@[mid as int].0 < t@[i].0);
                }
            }
            hi = mid;
        }
    }
    if lo < t.len() && t[lo].0 == key {
        t.set(lo, (key, value));
        assert forall|k: u32, v: u32|
            #![trigger table_has(t@, k, v)]
            table_has(t@, k, v) <==> ((k == key && v == value) || (k != key && table_has(t0, k, v))) by {
            if table_has(t@, k, v) {
                let i = choose|i: int| 0 <= i < t@.len() && #[trigger] t@[i] == (k, v);
                if i != lo {
                    assert(t0[i] == (k, v));
                    if k == key {
                        if i < lo {
                            assert(t0[i].0 < key);
                        } else {
                            assert(t0[lo as int].0 < t0[i].0);
                        }
                    }
                }
            }
            if k == key && v == value {
                assert(t@[lo as int] == (k, v));
            }
            if k != key && table_has(t0, k, v) {
                let i = choose|i: int| 0 <= i < t0.len() && #[trigger] t0[i] == (k, v);
                assert(t@[i] == (k, v));
            }
        }
    } else {
        t.insert(lo, (key, value));
        assert forall|i: int, j: int| 0 <= i < j < t@.len() implies #[trigger] t@[i].0
            < #[trigger] t@[j].0 by {
            if j < lo {
                assert(t0[i].0 < t0[j].0);
            } else if i > lo {
                assert(t0[i - 1].0 < t0[j - 1].0);
            } else if i < lo && j > lo {
                assert(t0[i].0 < key);
                assert(t0[j - 1].0 >= key);
                assert(t0[j - 1].0 != key || j - 1 != lo);
                if j - 1 > lo {
                    assert(t0[lo as int].0 < t0[j - 1].0);
                }
            } else if i == lo && j > lo {
                assert(t0[j - 1].0 >= key);
                if j - 1 > lo {
                    assert(t0[lo as int].0 < t0[j - 1].0);
                }
            }
        }
        assert forall|k: u32, v: u32|
            #![trigger table_has(t@, k, v)]
            table_has(t@, k, v) <==> ((k == key && v == value) || (k != key && table_has(t0, k, v))) by {
            if table_has(t@, k, v) {
                let i = choose|i: int| 0 <= i < t@.len() && #[trigger] t@[i] == (k, v);
                if i < lo {
                    assert(t0[i] == (k, v));
                    assert(t0[i].0 < key);
                } else if i > lo {
                    assert(t0[i - 1] == (k, v));
                    assert(t0[i - 1].0 >= key);
                    if i - 1 == lo {
                        assert(t0[lo as int].0 != key);
                    } else {
                        assert(t0[lo as int].0 < t0[i - 1].0);
                    }
                }
            }
            if k == key && v == value {
                assert(t@[lo as int] == (k, v));
            }
            if k != key && table_has(t0, k, v) {
                let i = choose|i: int| 0 <= i < t0.len() && #[trigger] t0[i] == (k, v);
                if i < lo {
                    assert(t@[i] == (k, v));
                } else {
                    assert(t@[i + 1] == (k, v));
                }
            }
        }
    }
}

/// Whether `a` ranks before `b`: a greater value, or an equal value and a smaller index.
pub open spec fn ranks_before(a: (usize, u64), b: (usize, u64)) -> bool {
    a.1 > b.1 || (a.1 == b.1 && a.0 < b.0)
}

/// The ranking value of region `r`: its steps, or its cost.
pub open spec fn rank_value(r: RoiView, by_step: bool) -> u64 {
    if by_step {
        r.steps
    } else {
        r.cost
    }
}

/// `s` is in ranking order.
pub open spec fn ranked(s: Seq<(usize, u64)>) -> bool {
    forall|i: int, j: int| 0 <= i < j < s.len() ==> ranks_before(#[trigger] s[i], #[trigger] s[j])
}

/// Whether `s` holds a pair for region `k`.
pub open spec fn has_index(s: Seq<(usize, u64)>, k: int) -> bool {
    exists|i: int| 0 <= i < s.len() && (#[trigger] s[i]).0 == k
}

/// `s` holds exactly the pairs (index, ranking value) of the first `n` regions.
pub open spec fn holds_first_regions(s: Seq<(usize, u64)>, rois: Seq<RoiView>, by_step: bool, n: int) -> bool {
    &&& forall|i: int| 0 <= i < s.len() ==> (#[trigger] s[i]).0 < n && s[i].1 == rank_value(rois[s[i].0 as int], by_step)
    &&& forall|k: int| 0 <= k < n ==> #[trigger] has_index(s, k)
}

/// Whether `s` holds a pair equal to `p`.
pub open spec fn has_pair(s: Seq<(usize, u64)>, p: (usize, u64)) -> bool {
    exists|i: int| 0 <= i < s.len() && #[trigger] s[i] == p
}

/// No key occurs twice in `s`.
pub open spec fn distinct_keys(s: Seq<(usize, u64)>) -> bool {
    forall|i: int, j: int| 0 <= i < j < s.len() ==> (#[trigger] s[i]).0 != (#[trigger] s[j]).0
}

/// Ranks `pairs` of a key and a value: the greatest values first, equal values by
/// increasing key; keeps the first `keep`. For the callers of a region, given by
/// increasing region index with their calls as values, this is the order of the callers
/// by decreasing calls, the earlier first among equals.
pub fn rank_pairs(pairs: &[(usize, u64)], keep: usize) -> (r: Vec<(usize, u64)>)
    requires
        distinct_keys(pairs@),
    ensures
        r@.len() == (if keep < pairs@.len() { keep as int } else { pairs@.len() as int }),
        ranked(r@),
        forall|i: int| 0 <= i < r@.len() ==> #[trigger] has_pair(pairs@, r@[i]),
        forall|k: int|
            0 <= k < pairs@.len() && !#[trigger] has_pair(r@, pairs@[k]) ==> forall|i: int|
                0 <= i < r@.len() ==> ranks_before(#[trigger] r@[i], pairs@[k]),
{
    let n = pairs.len();
    let mut ranking: Vec<(usize, u64)> = Vec::new();
    let mut k: usize = 0;
    while k < n
        invariant
            k <= n,
            n == pairs@.len(),
            distinct_keys(pairs@),
            ranking@.len() == k,
            ranked(ranking@),
            forall|i: int| 0 <= i < ranking@.len() ==> #[trigger] has_pair(pairs@.take(k as int), ranking@[i]),
            forall|t: int| 0 <= t < k ==> #[trigger] has_pair(ranking@, pairs@[t]),
        decreases n - k,
    {
        let (key, v) = pairs[k];
        let ghost old_ranking = ranking@;
        let mut pos: usize = 0;
        while pos < ranking.len() && (ranking[pos].1 > v || (ranking[pos].1 == v && ranking[pos].0 < key))
            invariant
                pos <= ranking@.len(),
                ranking@ == old_ranking,
                forall|i: int| 0 <= i < pos ==> ranks_before(#[trigger] ranking@[i], (key, v)),
            decreases ranking@.len() - pos,
        {
            pos = pos + 1;
        }
        proof {
            assert forall|i: int| 0 <= i < old_ranking.len() implies (#[trigger] old_ranking[i]).0 != key by {
                assert(has_pair(pairs@.take(k as int), ranking@[i]));
                let w = choose|w: int| 0 <= w < pairs@.take(k as int).len() && #[trigger] pairs@.take(k as int)[w] == old_ranking[i];
                assert(pairs@[w] == old_ranking[i]);
                assert(pairs@[w].0 != pairs@[k as int].0);
            }
            if pos < old_ranking.len() {
                assert(ranks_before((key, v), old_ranking[pos as int]));
            }
        }
        ranking.insert(pos, (key, v));
        proof {
            assert forall|i: int, j: int| 0 <= i < j < ranking@.len() implies ranks_before(
                #[trigger] ranking@[i],
                #[trigger] ranking@[j],
            ) by {
                if j < pos {
                    assert(ranks_before(old_ranking[i], old_ranking[j]));
                } else if i > pos {
                    assert(ranks_before(old_ranking[i - 1], old_ranking[j - 1]));
                } else if i == pos {
                    if j - 1 > pos {
                        assert(ranks_before(old_ranking[pos as int], old_ranking[j - 1]));
                    }
                } else {
                    if j > pos {
                        if j - 1 > i && j - 1 < old_ranking.len() && pos < old_ranking.len() {
                            assert(ranks_before(old_ranking[i], old_ranking[j - 1]));
                        }
                    }
                }
            }
            let tk1 = pairs@.take(k + 1);
            assert forall|i: int| 0 <= i < ranking@.len() implies #[trigger] has_pair(tk1, ranking@[i]) by {
                if i == pos {
                    assert(tk1[k as int] == pairs@[k as int]);
                } else {
                    let oi = if i < pos { i } else { i - 1 };
                    assert(ranking@[i] == old_ranking[oi]);
                    assert(has_pair(pairs@.take(k as int), old_ranking[oi]));
                    let w = choose|w: int| 0 <= w < pairs@.take(k as int).len() && #[trigger] pairs@.take(k as int)[w] == old_ranking[oi];
                    assert(tk1[w] == old_ranking[oi]);
                }
            }
            assert forall|t: int| 0 <= t < k + 1 implies #[trigger] has_pair(ranking@, pairs@[t]) by {
                if t == k {
                    assert(ranking@[pos as int] == pairs@[t]);
                } else {
                    assert(has_pair(old_ranking, pairs@[t]));
                    let i = choose|i: int| 0 <= i < old_ranking.len() && #[trigger] old_ranking[i] == pairs@[t];
                    if i < pos {
                        assert(ranking@[i] == pairs@[t]);
                    } else {
                        assert(ranking@[i + 1] == pairs@[t]);
                    }
                }
            }
        }
        k = k + 1;
    }
    let full_len = ranking.len();
    let kept = if keep < n {
        keep
    } else {
        n
    };
    let ghost full = ranking@;
    ranking.truncate(kept);
    proof {
        assert(pairs@.take(n as int) =~= pairs@);
        assert(ranking@ == full.take(kept as int));
        assert forall|i: int| 0 <= i < ranking@.len() implies #[trigger] has_pair(pairs@, ranking@[i]) by {
            assert(ranking@[i] == full[i]);
            assert(has_pair(pairs@.take(n as int), full[i]));
        }
        assert forall|t: int|
            0 <= t < pairs@.len() && !#[trigger] has_pair(ranking@, pairs@[t]) implies forall|i: int|
                0 <= i < ranking@.len() ==> ranks_before(#[trigger] ranking@[i], pairs@[t]) by {
            assert(has_pair(full, pairs@[t]));
            let w = choose|w: int| 0 <= w < full.len() && #[trigger] full[w] == pairs@[t];
            if w < kept {
                assert(ranking@[w] == pairs@[t]);
            }
            assert forall|i: int| 0 <= i < ranking@.len() implies ranks_before(#[trigger] ranking@[i], pairs@[t]) by {
                assert(ranking@[i] == full[i]);
                assert(ranks_before(full[i], full[w]));
            }
        }
    }
    ranking
}

impl Stats {
    /// No regions, no costs, an empty call stack, and rankings of ten regions.
    pub fn new() -> (s: Self)
        ensures
            s@.wf(),
            s@.rois.len() == 0,
            s@.table.len() == 0,
            s@.call_stack.len() == 0,
            s@.current_roi is None,
            s@.top_rois == 10,
            !s@.is_call,
            !s@.is_return,
            s@.frops == 0,
            s@.costs.steps == 0,
            s@.costs.cost == 0,
            forall|i: int| 0 <= i < 256 ==> s@.costs.ops[i] == 0,
            forall|i: int| 0 <= i < 256 ==> s@.costs.frops_ops[i] == 0,
    {
        let s = Stats {
            frops: 0,
            costs: StatsCosts::new(),
            rois: Vec::new(),
            rois_by_address: Vec::new(),
            current_roi: None,
            top_rois: 10,
            call_stack: Vec::new(),
            is_call: false,
            is_return: false,
        };
        s
    }

    /// Adds a region for `from_pc..=to_pc` named `name`, with the next index; the table
    /// then gives it for `from_pc`.
    pub fn add_roi(&mut self, from_pc: u32, to_pc: u32, name: &str)
        requires
            old(self)@.wf(),
            old(self).rois@.len() < u32::MAX,
        ensures
            final(self)@.wf(),
            final(self)@.rois == old(self)@.rois.push(
                roi_new(old(self)@.rois.len() as usize, from_pc, to_pc, name@),
            ),
            forall|k: u32, v: u32|
                table_has(final(self)@.table, k, v) <==> ((k == from_pc && v == old(self)@.rois.len())
                    || (k != from_pc && table_has(old(self)@.table, k, v))),
            final(self)@.frops == old(self)@.frops,
            final(self)@.costs == old(self)@.costs,
            final(self)@.current_roi == old(self)@.current_roi,
            final(self)@.call_stack == old(self)@.call_stack,
            final(self)@.top_rois == old(self)@.top_rois,
            final(self)@.is_call == old(self)@.is_call,
            final(self)@.is_return == old(self)@.is_return,
    {
        let index = self.rois.len();
        let roi = RegionsOfInterest::new(index, from_pc, to_pc, name);
        self.rois.push(roi);
        let ghost t0 = self.rois_by_address@;
        table_insert(&mut self.rois_by_address, from_pc, index as u32);
        proof {
            assert(self@.rois =~= old(self)@.rois.push(roi_new(index, from_pc, to_pc, name@)));
            assert forall|i: int| 0 <= i < self@.table.len() implies (#[trigger] self@.table[i]).1
                < self@.rois.len() by {
                let (k, v) = self@.table[i];
                assert(table_has(self@.table, k, v));
                if k != from_pc {
                    let j = choose|j: int| 0 <= j < t0.len() && #[trigger] t0[j] == (k, v);
                    assert(t0[j].1 < old(self)@.rois.len());
                }
            }
            assert(self@.call_stack =~= old(self)@.call_stack);
        }
    }

    /// Counts a step in region `r`.
    fn inc_step_at(&mut self, r: usize)
        requires
            r < old(self).rois@.len(),
            roi_can_step(old(self)@.rois[r as int]),
        ensures
            old(self)@.wf() ==> final(self)@.wf(),
            final(self).rois@.len() == old(self).rois@.len(),
            final(self)@ == old(self)@.with_roi(r as int, roi_inc_step(old(self)@.rois[r as int])),
    {
        self.rois[r].inc_step();
        proof {
            if old(self)@.wf() {
                lemma_inc_step_keeps_wf(old(self)@.rois[r as int]);
                lemma_with_roi_wf(old(self)@, r as int, roi_inc_step(old(self)@.rois[r as int]));
            }
            assert(self@.rois =~= old(self)@.rois.update(r as int, roi_inc_step(old(self)@.rois[r as int])));
            assert(self@.call_stack =~= old(self)@.call_stack);
            assert(self@ =~= old(self)@.with_roi(r as int, roi_inc_step(old(self)@.rois[r as int])));
        }
    }

    /// Records a call made from inside region `r`.
    fn caller_call_at(&mut self, r: usize)
        requires
            r < old(self).rois@.len(),
            old(self)@.rois[r as int].call_stack_rc < usize::MAX,
        ensures
            old(self)@.wf() ==> final(self)@.wf(),
            final(self).rois@.len() == old(self).rois@.len(),
            final(self)@ == old(self)@.with_roi(r as int, roi_caller_call(old(self)@.rois[r as int])),
    {
        self.rois[r].caller_call();
        proof {
            if old(self)@.wf() {
                lemma_operations_keep_wf(old(self)@.rois[r as int], 0, 0, 0, 0);
                lemma_with_roi_wf(old(self)@, r as int, roi_caller_call(old(self)@.rois[r as int]));
            }
            assert(self@.rois =~= old(self)@.rois.update(r as int, roi_caller_call(old(self)@.rois[r as int])));
            assert(self@.call_stack =~= old(self)@.call_stack);
            assert(self@ =~= old(self)@.with_roi(r as int, roi_caller_call(old(self)@.rois[r as int])));
        }
    }

    /// Records the return of a call made from inside region `r`, at `depth`.
    fn return_call_at(&mut self, r: usize, depth: usize)
        requires
            r < old(self).rois@.len(),
            old(self)@.rois[r as int].call_stack_rc > 0,
        ensures
            old(self)@.wf() ==> final(self)@.wf(),
            final(self).rois@.len() == old(self).rois@.len(),
            final(self)@ == old(self)@.with_roi(r as int, roi_return_call(old(self)@.rois[r as int], depth)),
    {
        self.rois[r].return_call(depth);
        proof {
            if old(self)@.wf() {
                lemma_operations_keep_wf(old(self)@.rois[r as int], depth, 0, 0, 0);
                lemma_with_roi_wf(old(self)@, r as int, roi_return_call(old(self)@.rois[r as int], depth));
            }
            assert(self@.rois =~= old(self)@.rois.update(r as int, roi_return_call(old(self)@.rois[r as int], depth)));
            assert(self@.call_stack =~= old(self)@.call_stack);
            assert(self@ =~= old(self)@.with_roi(r as int, roi_return_call(old(self)@.rois[r as int], depth)));
        }
    }

    /// Records a call into region `r` from `caller`, at `depth`.
    fn call_at(&mut self, r: usize, caller: Option<usize>, depth: usize)
        requires
            r < old(self).rois@.len(),
            roi_can_call(old(self)@.rois[r as int], caller),
        ensures
            old(self)@.wf() ==> final(self)@.wf(),
            final(self).rois@.len() == old(self).rois@.len(),
            final(self)@ == old(self)@.with_roi(r as int, roi_call(old(self)@.rois[r as int], caller, depth)),
    {
        self.rois[r].call(caller, depth);
        proof {
            if old(self)@.wf() {
                lemma_call_keeps_wf(old(self)@.rois[r as int], caller, depth);
                lemma_with_roi_wf(old(self)@, r as int, roi_call(old(self)@.rois[r as int], caller, depth));
            }
            assert(self@.rois =~= old(self)@.rois.update(r as int, roi_call(old(self)@.rois[r as int], caller, depth)));
            assert(self@.call_stack =~= old(self)@.call_stack);
            assert(self@ =~= old(self)@.with_roi(r as int, roi_call(old(self)@.rois[r as int], caller, depth)));
        }
    }

    /// Records that region `r` was seen at `depth`.
    fn update_call_depth_at(&mut self, r: usize, depth: usize)
        requires
            r < old(self).rois@.len(),
        ensures
            old(self)@.wf() ==> final(self)@.wf(),
            final(self).rois@.len() == old(self).rois@.len(),
            final(self)@ == old(self)@.with_roi(r as int, roi_update_depth(old(self)@.rois[r as int], depth)),
    {
        self.rois[r].update_call_depth(depth);
        proof {
            if old(self)@.wf() {
                lemma_operations_keep_wf(old(self)@.rois[r as int], depth, 0, 0, 0);
                lemma_with_roi_wf(old(self)@, r as int, roi_update_depth(old(self)@.rois[r as int], depth));
            }
            assert(self@.rois =~= old(self)@.rois.update(r as int, roi_update_depth(old(self)@.rois[r as int], depth)));
            assert(self@.call_stack =~= old(self)@.call_stack);
            assert(self@ =~= old(self)@.with_roi(r as int, roi_update_depth(old(self)@.rois[r as int], depth)));
        }
    }

    /// Charges to region `r` the steps run since the snapshot `reference`, unless a call
    /// made from inside it is pending.
    fn add_delta_at(&mut self, r: usize, reference: &StatsCosts)
        requires
            r < old(self).rois@.len(),
            old(self)@.rois[r as int].call_stack_rc == 0 ==> reference.steps <= old(self).costs.steps,
            old(self)@.rois[r as int].call_stack_rc == 0 ==> old(self)@.rois[r as int].steps + (
            old(self).costs.steps - reference.steps) <= u64::MAX,
        ensures
            old(self)@.wf() ==> final(self)@.wf(),
            final(self).rois@.len() == old(self).rois@.len(),
            final(self)@ == (if old(self)@.rois[r as int].call_stack_rc == 0 {
                old(self)@.with_roi(
                    r as int,
                    roi_add_steps(old(self)@.rois[r as int], old(self).costs.steps - reference.steps),
                )
            } else {
                old(self)@
            }),
    {
        let current = self.costs;
        let _ = self.rois[r].add_delta_costs(reference, &current);
        proof {
            if old(self)@.wf() && old(self)@.rois[r as int].call_stack_rc == 0 {
                lemma_operations_keep_wf(old(self)@.rois[r as int], 0, 0, old(self).costs.steps - reference.steps, 0);
                lemma_with_roi_wf(
                    old(self)@,
                    r as int,
                    roi_add_steps(old(self)@.rois[r as int], old(self).costs.steps - reference.steps),
                );
            }
            if old(self)@.rois[r as int].call_stack_rc == 0 {
                assert(self@.rois =~= old(self)@.rois.update(
                    r as int,
                    roi_add_steps(old(self)@.rois[r as int], old(self).costs.steps - reference.steps),
                ));
            } else {
                assert(self@.rois =~= old(self)@.rois);
            }
            assert(self@.call_stack =~= old(self)@.call_stack);
        }
    }

    /// Whether a step at `pc` may be taken: [`Stats::check_roi`] then neither breaks an
    /// invariant of the tracker nor overflows a counter.
    pub fn check_roi_allowed(&self, pc: u32) -> (r: bool)
        requires
            self@.wf(),
        ensures
            r == check_roi_ok(self@, pc),
    {
        let ghost s0 = self@;
        let pops = self.is_return && self.call_stack.len() > 0;
        let steps_max = u64::MAX;
        // The step charged to the current region by a pending return.
        if pops {
            match self.current_roi {
                Some(c) => {
                    if !self.rois[c].can_step() {
                        return false;
                    }
                },
                None => {},
            }
        }
        let found = floor_lookup(&self.rois_by_address, pc);
        let r = match found {
            None => {
                return true;
            },
            Some(i) => i as usize,
        };
        proof {
            lemma_floor_entry_is_greatest_key(s0.table, pc);
            let w = choose|w: int| 0 <= w < s0.table.len() && #[trigger] s0.table[w].1 == found->0 && s0.table[w].0 <= pc
                && forall|j: int| w < j < s0.table.len() ==> (#[trigger] s0.table[j]).0 > pc;
            assert(s0.table[w].1 < s0.rois.len());
        }
        let target = &self.rois[r];
        let inside = target.contains(pc);
        // The numbers of region `r` once the pending return, if any, is popped.
        let popped_here = pops && match self.current_roi {
            Some(c) => c == r,
            None => false,
        };
        let mut r_steps: u64 = target.get_steps();
        if popped_here && target.call_stack_rc == 0 {
            r_steps = r_steps + 1;
        }
        let r_calls = target.calls;
        let mut r_rc = target.call_stack_rc;
        // The steps of the entry of the last caller of `r`, and the counters of the entry of
        // `r` itself among its callers, once the pending return, if any, is popped.
        let bumped = popped_here && target.call_stack_rc == 0;
        let last_steps: Option<usize> = match target.last_caller_index {
            Some(x) => match target.callers.get(&x) {
                Some(info) => Some(
                    if bumped {
                        info.steps + 1
                    } else {
                        info.steps
                    },
                ),
                None => None,
            },
            None => None,
        };
        let self_is_last = match target.last_caller_index {
            Some(x) => x == r,
            None => false,
        };
        let self_entry: Option<(usize, usize)> = match target.callers.get(&r) {
            Some(info) => Some(
                (
                    info.calls,
                    if bumped && self_is_last {
                        info.steps + 1
                    } else {
                        info.steps
                    },
                ),
            ),
            None => None,
        };
        proof {
            let (s1, ret) = pop_return(s0);
            assert(s1.rois.len() == s0.rois.len());
            assert(s1.rois[r as int].steps == r_steps);
            assert(s1.rois[r as int].calls == r_calls);
            assert(s1.rois[r as int].call_stack_rc == r_rc);
            assert(s1.rois[r as int].from_pc == target.from_pc && s1.rois[r as int].to_pc == target.to_pc);
            assert(s1.rois[r as int].last_caller_index == target.last_caller_index);
            if popped_here {
                lemma_inc_step_keeps_wf(s0.rois[r as int]);
            }
            assert(roi_wf(s1.rois[r as int]));
            let m = s1.rois[r as int].callers;
            match target.last_caller_index {
                Some(x) => {
                    assert(m.contains_key(x) == target@.callers.contains_key(x));
                    if m.contains_key(x) {
                        assert(last_steps == Some(m[x].steps));
                    }
                },
                None => {},
            }
            assert(m.contains_key(r) == target@.callers.contains_key(r));
            if m.contains_key(r) {
                assert(self_entry == Some((m[r].calls, m[r].steps)));
            }
        }
        let last_ok = match last_steps {
            Some(v) => v < usize::MAX,
            None => true,
        };
        if inside && !self.is_call && !self.is_return {
            return r_rc != 0 || (r_steps < steps_max && last_ok);
        }
        if pops {
            let e = &self.call_stack[self.call_stack.len() - 1];
            let caller_ok = match e.caller_roi_index {
                Some(c) => c == r,
                None => false,
            };
            if !caller_ok || r_rc == 0 {
                return false;
            }
            r_rc = r_rc - 1;
            let same = match e.called_roi_index {
                Some(c) => c == r,
                None => false,
            };
            if !same {
                if r_steps > self.costs.steps {
                    return false;
                }
                if r_rc == 0 {
                    if e.costs.steps > self.costs.steps {
                        return false;
                    }
                    let delta = self.costs.steps - e.costs.steps;
                    if r_steps as u128 + delta as u128 > self.costs.steps as u128 {
                        return false;
                    }
                    r_steps = r_steps + delta;
                }
            }
        }
        proof {
            let (s1, ret) = pop_return(s0);
            let s2 = StatsView { current_roi: roi_at(s0.table, pc), ..s1 };
            let s3 = match ret {
                Some(e) => land_return(s2, r as int, e),
                None => s2,
            };
            if pops {
                lemma_operations_keep_wf(s2.rois[r as int], s2.call_stack.len() as usize, 0, 0, 0);
                let v = roi_return_call(s2.rois[r as int], s2.call_stack.len() as usize);
                if v.call_stack_rc == 0 && ret->0.costs.steps <= s2.costs.steps && v.steps + (s2.costs.steps
                    - ret->0.costs.steps) <= u64::MAX {
                    lemma_operations_keep_wf(v, 0, 0, s2.costs.steps - ret->0.costs.steps, 0);
                }
            }
            assert(s3.rois[r as int].steps == r_steps);
            assert(s3.rois[r as int].calls == r_calls);
            assert(s3.rois[r as int].call_stack_rc == r_rc);
            assert(roi_wf(s3.rois[r as int]));
        }
        if !inside {
            return true;
        }
        if self.is_call {
            if self.is_return {
                return false;
            }
            match self.current_roi {
                Some(p) => {
                    let p_rc = if p == r {
                        r_rc
                    } else {
                        self.rois[p].call_stack_rc
                    };
                    if p_rc == usize::MAX {
                        return false;
                    }
                },
                None => {},
            }
            return r_calls < usize::MAX && match self_entry {
                Some((c, st)) => c < usize::MAX && st < usize::MAX,
                None => true,
            };
        }
        if !self.is_return {
            return r_rc != 0 || (r_steps < steps_max && last_ok);
        }
        true
    }

    /// Charges a step at `pc` to the region that contains it and follows calls, returns
    /// and tail calls between regions on the shadow call stack; `regs` holds the registers,
    /// of which the return address is kept with a call.
    #[verifier::rlimit(50)]
    pub fn check_roi(&mut self, pc: u32, regs: &[u64])
        requires
            old(self)@.wf(),
            check_roi_ok(old(self)@, pc),
            old(self).is_call ==> regs@.len() > REG_RA_IDX,
        ensures
            final(self)@.wf(),
            final(self)@ == check_roi_spec(old(self)@, pc, regs@[REG_RA_IDX as int]),
    {
        let ghost s0 = self@;
        let mut return_call: Option<CallStackEntry> = None;
        if self.is_return && self.call_stack.len() > 0 {
            let e = self.call_stack.pop().unwrap();
            proof {
                assert(self@.call_stack =~= s0.call_stack.drop_last());
                assert(self@.rois =~= s0.rois);
            }
            match self.current_roi {
                Some(r) => {
                    self.inc_step_at(r);
                },
                None => {},
            }
            return_call = Some(e);
        }
        assert(self@ =~= pop_return(s0).0);
        assert(match return_call {
            Some(e) => pop_return(s0).1 == Some(e@),
            None => pop_return(s0).1 is None,
        });
        let previous_roi_index = self.current_roi;
        let found = floor_lookup(&self.rois_by_address, pc);
        self.current_roi = match found {
            Some(i) => Some(i as usize),
            None => None,
        };
        proof {
            assert(self@.rois =~= pop_return(s0).0.rois);
            assert(self@.call_stack =~= pop_return(s0).0.call_stack);
            assert(self@ =~= (StatsView { current_roi: roi_at(s0.table, pc), ..pop_return(s0).0 }));
            lemma_floor_entry_is_greatest_key(s0.table, pc);
            if let Some(i) = found {
                let w = choose|w: int| 0 <= w < s0.table.len() && #[trigger] s0.table[w].1 == i && s0.table[w].0 <= pc
                    && forall|j: int| w < j < s0.table.len() ==> (#[trigger] s0.table[j]).0 > pc;
                assert(s0.table[w].1 < s0.rois.len());
            }
        }
        match self.current_roi {
            None => {},
            Some(roi_index) => {
                assert(roi_index < self.rois@.len());
                if self.rois[roi_index].contains(pc) && !self.is_call && !self.is_return {
                    self.inc_step_at(roi_index);
                    return;
                }
                match return_call {
                    Some(rc) => {
                        let depth = self.call_stack.len();
                        self.return_call_at(roi_index, depth);
                        let same = match rc.called_roi_index {
                            Some(c) => c == roi_index,
                            None => false,
                        };
                        if !same {
                            self.add_delta_at(roi_index, &rc.costs);
                        }
                    },
                    None => {},
                }
                assert(self@ == (match pop_return(s0).1 {
                    Some(e) => land_return(
                        StatsView { current_roi: roi_at(s0.table, pc), ..pop_return(s0).0 },
                        roi_index as int,
                        e,
                    ),
                    None => StatsView { current_roi: roi_at(s0.table, pc), ..pop_return(s0).0 },
                }));
                if self.rois[roi_index].contains(pc) {
                    if self.is_call {
                        match previous_roi_index {
                            Some(p) => {
                                self.caller_call_at(p);
                            },
                            None => {},
                        }
                        let name = self.rois[roi_index].name.clone();
                        let ra = regs[REG_RA_IDX];
                        let ghost s_before = self@;
                        self.call_stack.push(
                            CallStackEntry {
                                pc: pc as u64,
                                ra,
                                caller_roi_index: previous_roi_index,
                                called_roi_index: Some(roi_index),
                                func_name: name,
                                costs: self.costs,
                            },
                        );
                        proof {
                            assert(self@.rois =~= s_before.rois);
                        }
                        let depth = self.call_stack.len();
                        self.call_at(roi_index, Some(roi_index), depth);
                    } else if !self.is_return {
                        let n = self.call_stack.len();
                        if n > 0 {
                            let ghost s_before = self@;
                            self.call_stack[n - 1].pc = pc as u64;
                            self.call_stack[n - 1].called_roi_index = Some(roi_index);
                            proof {
                                assert(self@.rois =~= s_before.rois);
                            }
                        }
                        self.inc_step_at(roi_index);
                        let depth = self.call_stack.len();
                        self.update_call_depth_at(roi_index, depth);
                    }
                }
            },
        }
    }

    /// Sets the call and return flags from the instruction just executed: a call sets the
    /// pc and stores the next pc in ra; a return sets the pc from ra (`jalr` through a
    /// register, storing nothing) while a call is pending.
    pub fn update_call_flags(
        &mut self,
        set_pc: bool,
        store_ra: bool,
        store_offset: i64,
        b_src_is_reg: bool,
        b_offset_imm0: u64,
    )
        ensures
            final(self)@ == (StatsView {
                is_call: set_pc && store_ra && store_offset == 1,
                is_return: set_pc && !store_ra && b_src_is_reg && b_offset_imm0 == 1
                    && old(self)@.call_stack.len() > 0,
                ..old(self)@
            }),
    {
        if set_pc {
            self.is_call = store_ra && store_offset == 1;
            let is_jalr_ra = !store_ra && b_src_is_reg && b_offset_imm0 == 1;
            self.is_return = is_jalr_ra && self.call_stack.len() > 0;
        } else {
            self.is_call = false;
            self.is_return = false;
        }
        proof {
            assert(self@.rois =~= old(self)@.rois);
            assert(self@.call_stack =~= old(self)@.call_stack);
        }
    }

    /// Counts the execution of operation `op`: as a frequent operation, or else on the
    /// operation counters of the execution and, for an operation run outside the main
    /// machine, of the current region.
    pub fn count_op(&mut self, op: u8, is_frops: bool, is_external_op: bool)
        requires
            old(self)@.wf(),
            is_frops ==> old(self).frops < u64::MAX && old(self).costs.frops_ops[op as int] < u64::MAX,
            !is_frops ==> old(self).costs.ops[op as int] < u64::MAX,
            !is_frops && is_external_op ==> (old(self).current_roi matches Some(r) ==> (old(
                self,
            )@.rois[r as int].call_stack_rc == 0 ==> old(self)@.rois[r as int].ops[op as int] < u64::MAX)),
        ensures
            final(self)@.wf(),
            is_frops ==> {
                &&& final(self).frops == old(self).frops + 1
                &&& final(self).costs.frops_ops@ == old(self).costs.frops_ops@.update(
                    op as int,
                    (old(self).costs.frops_ops[op as int] + 1) as u64,
                )
                &&& final(self).costs.ops == old(self).costs.ops
                &&& final(self)@.rois == old(self)@.rois
            },
            !is_frops ==> {
                &&& final(self).costs.ops@ == old(self).costs.ops@.update(
                    op as int,
                    (old(self).costs.ops[op as int] + 1) as u64,
                )
                &&& final(self).costs.frops_ops == old(self).costs.frops_ops
            },
            final(self).costs.steps == old(self).costs.steps,
            final(self).costs.cost == old(self).costs.cost,
            !is_frops ==> final(self)@.rois == (if is_external_op && old(self).current_roi is Some {
                old(self)@.rois.update(
                    old(self).current_roi->0 as int,
                    roi_add_op(old(self)@.rois[old(self).current_roi->0 as int], op),
                )
            } else {
                old(self)@.rois
            }),
            !is_frops ==> final(self)@.frops == old(self)@.frops,
            final(self)@.table == old(self)@.table,
            final(self)@.current_roi == old(self)@.current_roi,
            final(self)@.call_stack == old(self)@.call_stack,
            final(self)@.top_rois == old(self)@.top_rois,
            final(self)@.is_call == old(self)@.is_call,
            final(self)@.is_return == old(self)@.is_return,
    {
        let i = op as usize;
        if is_frops {
            self.frops = self.frops + 1;
            let v = self.costs.frops_ops[i];
            self.costs.frops_ops[i] = v + 1;
        } else {
            if is_external_op {
                match self.current_roi {
                    Some(r) => {
                        self.rois[r].add_op(op);
                    },
                    None => {},
                }
            }
            let v = self.costs.ops[i];
            self.costs.ops[i] = v + 1;
        }
        proof {
            if !is_frops && is_external_op && old(self).current_roi is Some {
                let r = old(self).current_roi->0 as int;
                assert(self@.rois =~= old(self)@.rois.update(r, roi_add_op(old(self)@.rois[r], op)));
            } else {
                assert(self@.rois =~= old(self)@.rois);
            }
            assert(self@.call_stack =~= old(self)@.call_stack);
        }
    }

    /// Counts one more step of the execution.
    pub fn count_step(&mut self)
        requires
            old(self).costs.steps < u64::MAX,
        ensures
            final(self)@ == (StatsView {
                costs: StatsCosts { steps: (old(self).costs.steps + 1) as u64, ..old(self).costs },
                ..old(self)@
            }),
    {
        self.costs.steps = self.costs.steps + 1;
        proof {
            assert(self@.rois =~= old(self)@.rois);
            assert(self@.call_stack =~= old(self)@.call_stack);
        }
    }

    /// The `top_rois` regions of greatest steps (or cost), as (index, value), greatest
    /// first; regions of equal value in index order.
    pub fn get_top_rois(&self, by_step: bool) -> (r: Vec<(usize, u64)>)
        ensures
            r@.len() == (if self.top_rois < self@.rois.len() { self.top_rois as int } else { self@.rois.len() as int }),
            ranked(r@),
            forall|i: int| 0 <= i < r@.len() ==> (#[trigger] r@[i]).0 < self@.rois.len() && r@[i].1
                == rank_value(self@.rois[r@[i].0 as int], by_step),
            forall|k: int|
                0 <= k < self@.rois.len() && !#[trigger] has_index(r@, k) ==> forall|i: int| 0 <= i < r@.len() ==> ranks_before(
                    #[trigger] r@[i],
                    (k as usize, rank_value(self@.rois[k], by_step)),
                ),
    {
        let n = self.rois.len();
        let ghost rois = self@.rois;
        let mut ranking: Vec<(usize, u64)> = Vec::new();
        let mut k: usize = 0;
        while k < n
            invariant
                k <= n,
                n == self.rois@.len(),
                rois == self@.rois,
                ranking@.len() == k,
                ranked(ranking@),
                holds_first_regions(ranking@, rois, by_step, k as int),
            decreases n - k,
        {
            let v = if by_step {
                self.rois[k].get_steps()
            } else {
                self.rois[k].get_cost()
            };
            let ghost old_ranking = ranking@;
            let mut pos: usize = 0;
            while pos < ranking.len() && ranking[pos].1 >= v
                invariant
                    pos <= ranking@.len(),
                    ranking@ == old_ranking,
                    forall|i: int| 0 <= i < pos ==> (#[trigger] ranking@[i]).1 >= v,
                decreases ranking@.len() - pos,
            {
                pos = pos + 1;
            }
            ranking.insert(pos, (k, v));
            proof {
                assert(v == rank_value(rois[k as int], by_step));
                assert forall|i: int, j: int| 0 <= i < j < ranking@.len() implies ranks_before(
                    #[trigger] ranking@[i],
                    #[trigger] ranking@[j],
                ) by {
                    if j < pos {
                        assert(ranks_before(old_ranking[i], old_ranking[j]));
                    } else if i > pos {
                        assert(ranks_before(old_ranking[i - 1], old_ranking[j - 1]));
                    } else if i == pos {
                        if j - 1 < old_ranking.len() && pos < old_ranking.len() {
                            assert(old_ranking[pos as int].1 < v);
                            if j - 1 > pos {
                                assert(ranks_before(old_ranking[pos as int], old_ranking[j - 1]));
                            }
                        }
                    } else {
                        assert(old_ranking[i].1 >= v);
                        assert(old_ranking[i].0 < k);
                        if j > pos {
                            assert(ranks_before(old_ranking[i], old_ranking[j - 1]));
                        }
                    }
                }
                assert forall|kk: int| 0 <= kk < k + 1 implies #[trigger] has_index(ranking@, kk) by {
                    if kk == k {
                        assert(ranking@[pos as int].0 == kk);
                    } else {
                        assert(has_index(old_ranking, kk));
                        let i = choose|i: int| 0 <= i < old_ranking.len() && (#[trigger] old_ranking[i]).0 == kk;
                        if i < pos {
                            assert(ranking@[i].0 == kk);
                        } else {
                            assert(ranking@[i + 1].0 == kk);
                        }
                    }
                }
                assert forall|i: int| 0 <= i < ranking@.len() implies (#[trigger] ranking@[i]).0 < k + 1
                    && ranking@[i].1 == rank_value(rois[ranking@[i].0 as int], by_step) by {
                    if i < pos {
                        assert(ranking@[i] == old_ranking[i]);
                    } else if i > pos {
                        assert(ranking@[i] == old_ranking[i - 1]);
                    }
                }
            }
            k = k + 1;
        }
        let keep = if self.top_rois < n {
            self.top_rois
        } else {
            n
        };
        let ghost full = ranking@;
        ranking.truncate(keep);
        proof {
            assert(ranking@ == full.take(keep as int));
            assert forall|kk: int|
                0 <= kk < rois.len() && !#[trigger] has_index(ranking@, kk) implies forall|i: int| 0 <= i < ranking@.len() ==> ranks_before(
                #[trigger] ranking@[i],
                (kk as usize, rank_value(rois[kk], by_step)),
            ) by {
                assert(has_index(full, kk));
                let w = choose|w: int| 0 <= w < full.len() && (#[trigger] full[w]).0 == kk;
                if w < keep {
                    assert(ranking@[w].0 == kk);
                }
                assert forall|i: int| 0 <= i < ranking@.len() implies ranks_before(
                    #[trigger] ranking@[i],
                    (kk as usize, rank_value(rois[kk], by_step)),
                ) by {
                    assert(ranks_before(full[i], full[w]));
                }
            }
        }
        ranking
    }

    /// How many regions a ranking keeps.
    pub fn set_top_rois(&mut self, value: usize)
        ensures
            final(self)@ == (StatsView { top_rois: value, ..old(self)@ }),
    {
        self.top_rois = value;
        proof {
            assert(self@.rois =~= old(self)@.rois);
            assert(self@.call_stack =~= old(self)@.call_stack);
        }
    }
}

} // verus!
