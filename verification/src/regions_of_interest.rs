//! Per-region execution statistics: steps, operation counters, callers and call depth of a
//! region of interest (a range of program counters, usually one function).

use std::collections::BTreeMap;
use vstd::prelude::*;

verus! {

broadcast use {vstd::std_specs::btree::group_btree_axioms, vstd::laws_cmp::group_laws_cmp};

/// Calls made from one caller region into a region, and the steps run on their behalf.
#[derive(Clone, Copy, Debug)]
pub struct CallerInfo {
    pub calls: usize,
    pub steps: usize,
}

/// Costs accumulated while executing: steps, a counter per operation code and the total cost.
#[derive(Clone, Copy, Debug)]
pub struct StatsCosts {
    pub steps: u64,
    pub ops: [u64; 256],
    /// Counters of the frequent operations, by operation code.
    pub frops_ops: [u64; 256],
    pub cost: u64,
}

impl StatsCosts {
    /// All counters at zero.
    pub fn new() -> (c: StatsCosts)
        ensures
            c.steps == 0,
            c.cost == 0,
            forall|i: int| 0 <= i < 256 ==> c.ops[i] == 0,
            forall|i: int| 0 <= i < 256 ==> c.frops_ops[i] == 0,
    {
        StatsCosts { steps: 0, ops: [0u64; 256], frops_ops: [0u64; 256], cost: 0 }
    }

    /// Adds the steps executed between the snapshots `reference` and `current` and returns
    /// how many were added.
    pub fn add_delta(&mut self, reference: &StatsCosts, current: &StatsCosts) -> (added: u64)
        requires
            reference.steps <= current.steps,
            old(self).steps + (current.steps - reference.steps) <= u64::MAX,
        ensures
            added == current.steps - reference.steps,
            final(self).steps == old(self).steps + added,
            final(self).ops == old(self).ops,
            final(self).frops_ops == old(self).frops_ops,
            final(self).cost == old(self).cost,
    {
        let added = current.steps - reference.steps;
        self.steps = self.steps + added;
        added
    }
}

/// A region of interest: the program counters `from_pc..=to_pc`, with the statistics of the
/// steps run inside it.
#[derive(Clone, Debug)]
pub struct RegionsOfInterest {
    pub id: usize,
    pub from_pc: u32,
    pub to_pc: u32,
    pub name: String,
    pub costs: StatsCosts,
    pub calls: usize,
    pub callers: BTreeMap<usize, CallerInfo>,
    pub last_caller_index: Option<usize>,
    pub call_stack_rc: usize,
    pub call_stack_depth: Option<usize>,
}

/// What a region of interest holds, as plain values.
pub struct RoiView {
    pub id: usize,
    pub from_pc: u32,
    pub to_pc: u32,
    pub name: Seq<char>,
    pub steps: u64,
    pub ops: Seq<u64>,
    pub frops_ops: Seq<u64>,
    pub cost: u64,
    pub calls: usize,
    pub callers: Map<usize, CallerInfo>,
    pub last_caller_index: Option<usize>,
    pub call_stack_rc: usize,
    pub call_stack_depth: Option<usize>,
}

impl View for RegionsOfInterest {
    type V = RoiView;

    open spec fn view(&self) -> RoiView {
        RoiView {
            id: self.id,
            from_pc: self.from_pc,
            to_pc: self.to_pc,
            name: self.name@,
            steps: self.costs.steps,
            ops: self.costs.ops@,
            frops_ops: self.costs.frops_ops@,
            cost: self.costs.cost,
            calls: self.calls,
            callers: self.callers@,
            last_caller_index: self.last_caller_index,
            call_stack_rc: self.call_stack_rc,
            call_stack_depth: self.call_stack_depth,
        }
    }
}

/// The smaller of two call depths.
pub open spec fn min_depth(a: usize, b: usize) -> usize {
    if a <= b {
        a
    } else {
        b
    }
}

/// The call depth recorded after seeing `depth`: the least depth seen so far.
pub open spec fn next_depth(recorded: Option<usize>, depth: usize) -> Option<usize> {
    match recorded {
        None => Some(depth),
        Some(d) => Some(min_depth(d, depth)),
    }
}

/// The callers after one more call from `caller`: a new entry with one call and one step,
/// or one more call and one more step on the existing entry.
pub open spec fn callers_after_call(
    callers: Map<usize, CallerInfo>,
    caller: usize,
) -> Map<usize, CallerInfo> {
    if callers.contains_key(caller) {
        callers.insert(
            caller,
            CallerInfo { calls: (callers[caller].calls + 1) as usize, steps: (callers[caller].steps + 1) as usize },
        )
    } else {
        callers.insert(caller, CallerInfo { calls: 1, steps: 1 })
    }
}

/// A new region: no steps, operations, calls or callers.
pub open spec fn roi_new(id: usize, from_pc: u32, to_pc: u32, name: Seq<char>) -> RoiView {
    RoiView {
        id,
        from_pc,
        to_pc,
        name,
        steps: 0,
        ops: Seq::new(256, |i: int| 0u64),
        frops_ops: Seq::new(256, |i: int| 0u64),
        cost: 0,
        calls: 0,
        callers: Map::empty(),
        last_caller_index: None,
        call_stack_rc: 0,
        call_stack_depth: None,
    }
}

/// The region after a call made from inside it: one more pending call.
pub open spec fn roi_caller_call(v: RoiView) -> RoiView {
    RoiView { call_stack_rc: (v.call_stack_rc + 1) as usize, ..v }
}

/// The region after it is seen at `depth`.
pub open spec fn roi_update_depth(v: RoiView, depth: usize) -> RoiView {
    RoiView { call_stack_depth: next_depth(v.call_stack_depth, depth), ..v }
}

/// The region after a call into it, from `caller` if any, at `depth`.
pub open spec fn roi_call(v: RoiView, caller: Option<usize>, depth: usize) -> RoiView {
    let d = roi_update_depth(RoiView { calls: (v.calls + 1) as usize, ..v }, depth);
    match caller {
        Some(c) => RoiView {
            callers: callers_after_call(v.callers, c),
            last_caller_index: Some(c),
            ..d
        },
        None => d,
    }
}

/// The region after a call made from inside it returned, seen at `depth`.
pub open spec fn roi_return_call(v: RoiView, depth: usize) -> RoiView {
    roi_update_depth(RoiView { call_stack_rc: (v.call_stack_rc - 1) as usize, ..v }, depth)
}

/// The region after one step run in it: counted, and charged to the last caller when it
/// has an entry, unless a call made from inside the region is pending.
pub open spec fn roi_inc_step(v: RoiView) -> RoiView {
    if v.call_stack_rc == 0 {
        let callers = match v.last_caller_index {
            Some(c) => if v.callers.contains_key(c) {
                v.callers.insert(
                    c,
                    CallerInfo { calls: v.callers[c].calls, steps: (v.callers[c].steps + 1) as usize },
                )
            } else {
                v.callers
            },
            None => v.callers,
        };
        RoiView { steps: (v.steps + 1) as u64, callers, ..v }
    } else {
        v
    }
}

/// The region after operation `op` ran in it.
pub open spec fn roi_add_op(v: RoiView, op: u8) -> RoiView {
    if v.call_stack_rc == 0 {
        RoiView { ops: v.ops.update(op as int, (v.ops[op as int] + 1) as u64), ..v }
    } else {
        v
    }
}

/// The region after `added` steps were charged to it.
pub open spec fn roi_add_steps(v: RoiView, added: int) -> RoiView {
    RoiView { steps: (v.steps + added) as u64, ..v }
}

/// The counters of each caller are bounded by those of the region: its calls by the
/// region's calls, its steps by the region's calls and steps.
pub open spec fn roi_wf(v: RoiView) -> bool {
    forall|k: usize|
        #[trigger] v.callers.contains_key(k) ==> v.callers[k].calls <= v.calls && v.callers[k].steps
            <= v.calls + v.steps
}

/// Whether a call into the region from `caller` can be counted without overflow: the
/// region's calls, and the counters of the caller's entry if it has one, are below the
/// maximum.
pub open spec fn roi_can_call(v: RoiView, caller: Option<usize>) -> bool {
    &&& v.calls < usize::MAX
    &&& (caller matches Some(c) && v.callers.contains_key(c)) ==> (v.callers[caller->0].calls
        < usize::MAX && v.callers[caller->0].steps < usize::MAX)
}

/// Whether a step can be counted without overflow: when it is counted, the region's steps
/// and the steps of the last caller's entry, if it has one, are below the maximum.
pub open spec fn roi_can_step(v: RoiView) -> bool {
    v.call_stack_rc == 0 ==> {
        &&& v.steps < u64::MAX
        &&& (v.last_caller_index matches Some(c) && v.callers.contains_key(c)) ==> v.callers[
            v.last_caller_index->0].steps < usize::MAX
    }
}

/// A call counted on a region that can take it keeps its counters of callers within
/// bounds.
pub proof fn lemma_call_keeps_wf(v: RoiView, caller: Option<usize>, depth: usize)
    requires
        roi_wf(v),
        roi_can_call(v, caller),
    ensures
        roi_wf(roi_call(v, caller, depth)),
{
    let c = roi_call(v, caller, depth);
    assert forall|k: usize| #[trigger] c.callers.contains_key(k) implies c.callers[k].calls <= c.calls
        && c.callers[k].steps <= c.calls + c.steps by {
        if caller == Some(k) {
            if v.callers.contains_key(k) {
                assert(v.callers[k].calls <= v.calls);
                assert(v.callers[k].steps <= v.calls + v.steps);
            }
        } else {
            assert(v.callers.contains_key(k));
        }
    }
}

/// A step counted on a region that can take it keeps its counters of callers within
/// bounds.
pub proof fn lemma_inc_step_keeps_wf(v: RoiView)
    requires
        roi_wf(v),
        roi_can_step(v),
    ensures
        roi_wf(roi_inc_step(v)),
{
    let i = roi_inc_step(v);
    assert forall|k: usize| #[trigger] i.callers.contains_key(k) implies i.callers[k].calls <= i.calls
        && i.callers[k].steps <= i.calls + i.steps by {
        assert(v.callers.contains_key(k));
        assert(v.callers[k].steps <= v.calls + v.steps);
    }
}

/// The other operations on a region leave its callers alone and its counters no smaller.
pub proof fn lemma_operations_keep_wf(v: RoiView, depth: usize, op: u8, added: int, cost: u64)
    requires
        roi_wf(v),
        added >= 0,
    ensures
        v.call_stack_rc < usize::MAX ==> roi_wf(roi_caller_call(v)),
        roi_wf(roi_update_depth(v, depth)),
        v.call_stack_rc > 0 ==> roi_wf(roi_return_call(v, depth)),
        roi_wf(roi_add_op(v, op)),
        v.steps + added <= u64::MAX ==> roi_wf(roi_add_steps(v, added)),
        roi_wf(RoiView { cost, ..v }),
{
    let a = roi_add_steps(v, added);
    if v.steps + added <= u64::MAX {
        assert forall|k: usize| #[trigger] a.callers.contains_key(k) implies a.callers[k].calls <= a.calls
            && a.callers[k].steps <= a.calls + a.steps by {
            assert(v.callers.contains_key(k));
        }
    }
}

/// A new region is well formed.
pub proof fn lemma_new_wf(id: usize, from_pc: u32, to_pc: u32, name: Seq<char>)
    ensures
        roi_wf(roi_new(id, from_pc, to_pc, name)),
{
}

impl RegionsOfInterest {
    /// A region with no steps, calls or callers.
    pub fn new(id: usize, from_pc: u32, to_pc: u32, name: &str) -> (r: Self)
        ensures
            r@ == roi_new(id, from_pc, to_pc, name@),
    {
        let r = RegionsOfInterest {
            id,
            from_pc,
            to_pc,
            costs: StatsCosts::new(),
            calls: 0,
            name: name.to_owned(),
            callers: BTreeMap::new(),
            last_caller_index: None,
            call_stack_rc: 0,
            call_stack_depth: None,
        };
        assert(r@.ops =~= Seq::new(256, |i: int| 0u64));
        assert(r@.frops_ops =~= Seq::new(256, |i: int| 0u64));
        r
    }

    /// Whether `pc` lies in the region, both ends included.
    pub fn contains(&self, pc: u32) -> (r: bool)
        ensures
            r == (self.from_pc <= pc && pc <= self.to_pc),
    {
        pc >= self.from_pc && pc <= self.to_pc
    }

    /// Counts one more call made from inside this region to another one.
    pub fn caller_call(&mut self)
        requires
            old(self).call_stack_rc < usize::MAX,
        ensures
            final(self)@ == roi_caller_call(old(self)@),
    {
        self.call_stack_rc = self.call_stack_rc + 1;
    }

    /// Records that the region was seen at `call_stack_depth`: the recorded depth becomes
    /// the least one seen.
    pub fn update_call_depth(&mut self, call_stack_depth: usize)
        ensures
            final(self)@ == roi_update_depth(old(self)@, call_stack_depth),
    {
        match self.call_stack_depth {
            None => {
                self.call_stack_depth = Some(call_stack_depth);
            },
            Some(d) => {
                let m = if d <= call_stack_depth {
                    d
                } else {
                    call_stack_depth
                };
                self.call_stack_depth = Some(m);
            },
        }
    }

    /// Records a call into this region at `call_stack_depth`, made from region `caller` if
    /// there is one.
    pub fn call(&mut self, caller: Option<usize>, call_stack_depth: usize)
        requires
            roi_can_call(old(self)@, caller),
        ensures
            final(self)@ == roi_call(old(self)@, caller, call_stack_depth),
    {
        self.calls = self.calls + 1;
        self.update_call_depth(call_stack_depth);
        if let Some(caller_id) = caller {
            let updated = match self.callers.get(&caller_id) {
                Some(info) => CallerInfo { calls: info.calls + 1, steps: info.steps + 1 },
                None => CallerInfo { calls: 1, steps: 1 },
            };
            self.callers.insert(caller_id, updated);
            self.last_caller_index = Some(caller_id);
        }
    }

    /// Records the return of a call made from inside this region, seen at
    /// `call_stack_depth`.
    pub fn return_call(&mut self, call_stack_depth: usize)
        requires
            old(self).call_stack_rc > 0,
        ensures
            final(self)@ == roi_return_call(old(self)@, call_stack_depth),
    {
        self.call_stack_rc = self.call_stack_rc - 1;
        self.update_call_depth(call_stack_depth);
    }

    /// Counts one step run in this region. Steps run while a call made from inside the
    /// region is pending are not counted; a counted step is also charged to the last
    /// caller, when it has an entry.
    pub fn inc_step(&mut self)
        requires
            roi_can_step(old(self)@),
        ensures
            final(self)@ == roi_inc_step(old(self)@),
    {
        if self.call_stack_rc == 0 {
            self.costs.steps = self.costs.steps + 1;
            if let Some(index) = self.last_caller_index {
                let found = match self.callers.get(&index) {
                    Some(info) => Some(CallerInfo { calls: info.calls, steps: info.steps + 1 }),
                    None => None,
                };
                if let Some(updated) = found {
                    self.callers.insert(index, updated);
                }
            }
        }
    }

    /// Whether a step can be counted on this region without overflow (see
    /// [`roi_can_step`]).
    pub fn can_step(&self) -> (r: bool)
        ensures
            r == roi_can_step(self@),
    {
        if self.call_stack_rc != 0 {
            return true;
        }
        if self.costs.steps == u64::MAX {
            return false;
        }
        match self.last_caller_index {
            Some(x) => match self.callers.get(&x) {
                Some(info) => info.steps < usize::MAX,
                None => true,
            },
            None => true,
        }
    }

    /// The callers of this region, by region index.
    pub fn get_callers(&self) -> (r: &BTreeMap<usize, CallerInfo>)
        ensures
            r@ == self@.callers,
    {
        &self.callers
    }

    /// Counts one execution of operation `op` in this region, unless a call made from
    /// inside the region is pending.
    pub fn add_op(&mut self, op: u8)
        requires
            old(self).call_stack_rc == 0 ==> old(self)@.ops[op as int] < u64::MAX,
        ensures
            final(self)@ == roi_add_op(old(self)@, op),
    {
        if self.call_stack_rc == 0 {
            let i = op as usize;
            let v = self.costs.ops[i];
            self.costs.ops[i] = v + 1;
        }
    }

    /// Sets the cost of the region: the cost of its operations, of its precompiled
    /// operations and of its memory accesses, plus `main_cost` for each of its steps.
    pub fn update_costs(&mut self, ops_cost: u64, precompiles_cost: u64, mem_cost: u64, main_cost: u64)
        requires
            ops_cost + precompiles_cost + mem_cost + old(self)@.steps * main_cost <= u64::MAX,
        ensures
            final(self)@ == (RoiView {
                cost: (ops_cost + precompiles_cost + mem_cost + old(self)@.steps * main_cost) as u64,
                ..old(self)@
            }),
    {
        let steps = self.costs.steps;
        assert(steps * main_cost <= u64::MAX) by (nonlinear_arith)
            requires
                ops_cost + precompiles_cost + mem_cost + steps * main_cost <= u64::MAX,
                0 <= ops_cost,
                0 <= precompiles_cost,
                0 <= mem_cost,
        ;
        self.costs.cost = ops_cost + precompiles_cost + mem_cost + steps * main_cost;
    }

    /// The last computed cost of the region.
    pub fn get_cost(&self) -> (r: u64)
        ensures
            r == self@.cost,
    {
        self.costs.cost
    }

    /// The steps counted for the region.
    pub fn get_steps(&self) -> (r: u64)
        ensures
            r == self@.steps,
    {
        self.costs.steps
    }

    /// The number of calls made from inside the region that have not returned.
    pub fn get_callstack_rc(&self) -> (r: usize)
        ensures
            r == self@.call_stack_rc,
    {
        self.call_stack_rc
    }

    /// The operation counters of the region.
    pub fn get_ops_costs(&self) -> (r: &[u64; 256])
        ensures
            r@ == self@.ops,
    {
        &self.costs.ops
    }

    /// The least call stack depth at which the region was seen.
    pub fn get_call_stack_depth(&self) -> (r: Option<usize>)
        ensures
            r == self@.call_stack_depth,
    {
        self.call_stack_depth
    }

    /// Adds the steps run between the snapshots `reference` and `current` to the region and
    /// returns how many, unless a call made from inside the region is pending.
    pub fn add_delta_costs(&mut self, reference: &StatsCosts, current: &StatsCosts) -> (r: Option<u64>)
        requires
            old(self).call_stack_rc == 0 ==> reference.steps <= current.steps,
            old(self).call_stack_rc == 0 ==> old(self)@.steps + (current.steps - reference.steps) <= u64::MAX,
        ensures
            old(self).call_stack_rc == 0 ==> {
                &&& r == Some((current.steps - reference.steps) as u64)
                &&& final(self)@ == roi_add_steps(old(self)@, current.steps - reference.steps)
            },
            old(self).call_stack_rc != 0 ==> r is None && final(self)@ == old(self)@,
    {
        if self.call_stack_rc == 0 {
            Some(self.costs.add_delta(reference, current))
        } else {
            None
        }
    }
}

/// The recorded call depth never grows: after seeing any depth it is at most what it was.
pub proof fn lemma_call_depth_never_grows(v: RoiView, depth: usize)
    ensures
        roi_update_depth(v, depth).call_stack_depth matches Some(d) && d <= depth,
        v.call_stack_depth matches Some(old_d) ==> (roi_update_depth(v, depth).call_stack_depth
            matches Some(d) && d <= old_d),
{
}

/// A call made from inside a region and its return leave the count of pending calls as it
/// was.
pub proof fn lemma_caller_call_then_return(v: RoiView, depth: usize)
    requires
        v.call_stack_rc < usize::MAX,
    ensures
        roi_return_call(roi_caller_call(v), depth).call_stack_rc == v.call_stack_rc,
{
}

/// The depth recorded after seeing the depths `ds` in order, starting from `recorded`.
pub open spec fn depth_after(recorded: Option<usize>, ds: Seq<usize>) -> Option<usize>
    decreases ds.len(),
{
    if ds.len() == 0 {
        recorded
    } else {
        next_depth(depth_after(recorded, ds.drop_last()), ds.last())
    }
}

/// The least of a non-empty sequence of depths.
pub open spec fn least_depth(ds: Seq<usize>) -> usize
    decreases ds.len(),
{
    if ds.len() <= 1 {
        ds[0]
    } else {
        min_depth(least_depth(ds.drop_last()), ds.last())
    }
}

/// One operation on a region, as its methods make it.
pub enum RoiOp {
    /// A call into the region, from a caller if any, at a depth.
    Call(Option<usize>, usize),
    /// The return of a call made from inside the region, seen at a depth.
    ReturnCall(usize),
    /// The region seen at a depth.
    UpdateDepth(usize),
    /// A step run in the region.
    IncStep,
    /// A call made from inside the region.
    CallerCall,
    /// An operation run in the region.
    AddOp(u8),
}

/// The region after operation `op`: the view that the method of the same name
/// (`call`, `return_call`, `update_call_depth`, `inc_step`, `caller_call`, `add_op`)
/// leaves, by its contract.
pub open spec fn roi_apply(v: RoiView, op: RoiOp) -> RoiView {
    match op {
        RoiOp::Call(caller, depth) => roi_call(v, caller, depth),
        RoiOp::ReturnCall(depth) => roi_return_call(v, depth),
        RoiOp::UpdateDepth(depth) => roi_update_depth(v, depth),
        RoiOp::IncStep => roi_inc_step(v),
        RoiOp::CallerCall => roi_caller_call(v),
        RoiOp::AddOp(o) => roi_add_op(v, o),
    }
}

/// The region after the operations `ops`, in order.
pub open spec fn roi_run(v: RoiView, ops: Seq<RoiOp>) -> RoiView
    decreases ops.len(),
{
    if ops.len() == 0 {
        v
    } else {
        roi_apply(roi_run(v, ops.drop_last()), ops.last())
    }
}

/// The depths that the operations `ops` pass, in order: those of calls, returns and
/// depth updates.
pub open spec fn op_depths(ops: Seq<RoiOp>) -> Seq<usize>
    decreases ops.len(),
{
    if ops.len() == 0 {
        Seq::empty()
    } else {
        op_depths(ops.drop_last()) + match ops.last() {
            RoiOp::Call(_, d) => seq![d],
            RoiOp::ReturnCall(d) => seq![d],
            RoiOp::UpdateDepth(d) => seq![d],
            _ => Seq::empty(),
        }
    }
}

/// How many of the operations `ops` are calls from region `c`.
pub open spec fn calls_from(ops: Seq<RoiOp>, c: usize) -> nat
    decreases ops.len(),
{
    if ops.len() == 0 {
        0
    } else {
        calls_from(ops.drop_last(), c) + if ops.last() matches RoiOp::Call(Some(k), _) && k == c {
            1nat
        } else {
            0nat
        }
    }
}

/// How many of the operations `ops` are calls.
pub open spec fn call_count(ops: Seq<RoiOp>) -> nat
    decreases ops.len(),
{
    if ops.len() == 0 {
        0
    } else {
        call_count(ops.drop_last()) + if ops.last() is Call {
            1nat
        } else {
            0nat
        }
    }
}

/// The recorded call depth is the least depth seen: with none recorded before, after the
/// depths `ds` it is the least of them, which is one of them and at most each of them.
pub proof fn lemma_recorded_depth_is_least(ds: Seq<usize>)
    requires
        ds.len() > 0,
    ensures
        depth_after(None, ds) == Some(least_depth(ds)),
        forall|i: int| 0 <= i < ds.len() ==> least_depth(ds) <= #[trigger] ds[i],
        exists|i: int| 0 <= i < ds.len() && least_depth(ds) == ds[i],
    decreases ds.len(),
{
    if ds.len() > 1 {
        let p = ds.drop_last();
        lemma_recorded_depth_is_least(p);
        assert forall|i: int| 0 <= i < ds.len() implies least_depth(ds) <= #[trigger] ds[i] by {
            if i < ds.len() - 1 {
                assert(ds[i] == p[i]);
            }
        }
        let j = choose|j: int| 0 <= j < p.len() && least_depth(p) == p[j];
        if least_depth(p) <= ds.last() {
            assert(ds[j] == p[j]);
        } else {
            assert(ds[ds.len() - 1] == ds.last());
        }
        assert(depth_after(None, ds) == next_depth(depth_after(None, p), ds.last()));
    } else {
        assert(ds.drop_last().len() == 0);
        assert(depth_after(None, ds.drop_last()) is None);
        assert(ds[0] == ds.last());
    }
}

/// Over any run of operations, the recorded call depth is the least of the depths passed
/// after the one recorded before; a new region, with none recorded, has none until a depth
/// is passed, and the least depth passed after that.
pub proof fn lemma_run_records_least_depth(v: RoiView, ops: Seq<RoiOp>)
    ensures
        roi_run(v, ops).call_stack_depth == depth_after(v.call_stack_depth, op_depths(ops)),
        v.call_stack_depth is None && op_depths(ops).len() == 0 ==> roi_run(v, ops).call_stack_depth is None,
        v.call_stack_depth is None && op_depths(ops).len() > 0 ==> roi_run(v, ops).call_stack_depth == Some(
            least_depth(op_depths(ops)),
        ),
    decreases ops.len(),
{
    if ops.len() > 0 {
        let p = ops.drop_last();
        lemma_run_records_least_depth(v, p);
        let w = roi_run(v, p);
        match ops.last() {
            RoiOp::Call(_, d) => {
                assert(op_depths(ops) =~= op_depths(p).push(d));
                assert(op_depths(ops).drop_last() =~= op_depths(p));
            },
            RoiOp::ReturnCall(d) => {
                assert(op_depths(ops) =~= op_depths(p).push(d));
                assert(op_depths(ops).drop_last() =~= op_depths(p));
            },
            RoiOp::UpdateDepth(d) => {
                assert(op_depths(ops) =~= op_depths(p).push(d));
                assert(op_depths(ops).drop_last() =~= op_depths(p));
            },
            _ => {
                assert(op_depths(ops) =~= op_depths(p));
            },
        }
    }
    if v.call_stack_depth is None && op_depths(ops).len() > 0 {
        lemma_recorded_depth_is_least(op_depths(ops));
    }
    if v.call_stack_depth is None && op_depths(ops).len() == 0 {
        assert(depth_after(None, op_depths(ops)) is None);
    }
}

/// Each caller's entry counts the calls it made: starting with no callers, after any run
/// of operations a region has an entry for exactly the regions that called it, with as
/// many calls as each made, and its own count of calls has grown by the number of calls.
pub proof fn lemma_run_caller_counts(v: RoiView, ops: Seq<RoiOp>, c: usize)
    requires
        v.callers == Map::<usize, CallerInfo>::empty(),
        v.calls + ops.len() <= usize::MAX,
    ensures
        roi_run(v, ops).calls == v.calls + call_count(ops),
        roi_run(v, ops).callers.contains_key(c) <==> calls_from(ops, c) > 0,
        roi_run(v, ops).callers.contains_key(c) ==> roi_run(v, ops).callers[c].calls == calls_from(ops, c),
    decreases ops.len(),
{
    if ops.len() > 0 {
        let p = ops.drop_last();
        lemma_run_caller_counts(v, p, c);
        lemma_counts_bound(p, c);
        let w = roi_run(v, p);
        match ops.last() {
            RoiOp::Call(caller, d) => {
                if caller == Some(c) && w.callers.contains_key(c) {
                    assert(w.callers[c].calls + 1 <= usize::MAX);
                }
            },
            RoiOp::IncStep => {
                if w.call_stack_rc == 0 && w.last_caller_index is Some {
                    let k = w.last_caller_index->0;
                    if w.callers.contains_key(k) {
                        assert(roi_run(v, ops).callers.dom() =~= w.callers.dom());
                    }
                }
            },
            _ => {},
        }
    }
}

/// No region made more calls than there were operations, nor were there more calls.
proof fn lemma_counts_bound(ops: Seq<RoiOp>, c: usize)
    ensures
        calls_from(ops, c) <= call_count(ops),
        call_count(ops) <= ops.len(),
    decreases ops.len(),
{
    if ops.len() > 0 {
        lemma_counts_bound(ops.drop_last(), c);
    }
}

} // verus!
