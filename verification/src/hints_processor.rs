//! Decision logic of the precompile hints processor.
//!
//! The processor reads a batch of concatenated hints, reserves one sequence id per data
//! hint, and hands the work out; results are buffered in a [`ResultQueue`] and leave it in
//! sequence order. The threads, the locks and the waiting stay with the caller: this
//! module holds the shared state and decides, hint by hint, what happens next.

use crate::error::{HintError, HintName};
use crate::hint_code::{CTRL_CANCEL, CTRL_END, CTRL_ERROR, CTRL_START};
use crate::hint_format::{header_code, header_length, split_header};
use crate::result_queue::{
    drain_fails, drained_count, drained_slots, fill_outcome, lemma_outcome_rounds_inv,
    lemma_outcomes_drain_in_order, lemma_ready_prefix_bounds, lemma_ready_prefix_len, payloads,
    ready_prefix_len, run_outcome_rounds, slot_payload, vec_views, ResultQueue, Slot,
};
use vstd::prelude::*;

verus! {

/// Hint type of a hint whose data already is the precomputed result.
pub const HINTS_TYPE_RESULT: u32 = 0x04;

/// Hint type of a hint whose data holds the inputs of the ecrecover precompile.
pub const HINTS_TYPE_ECRECOVER: u32 = 0x05;

/// Number of hint types that the processor accepts.
pub const NUM_HINT_TYPES: u32 = 6;

/// Number of data words of an ecrecover hint: pk (8) + z (4) + r (4) + s (4).
pub const ECRECOVER_HINT_LEN: usize = 20;

/// The outcome of reading the raw hint whose header sits at `idx` in `s`: its type and
/// data, or the error the parser reports.
pub open spec fn parse_raw_hint(s: Seq<u64>, idx: int) -> Result<(u32, Seq<u64>), HintError> {
    if idx < 0 || idx >= s.len() {
        Err(HintError::IndexOutOfBounds)
    } else {
        let header = s[idx];
        let length = header_length(header);
        if s.len() < idx + length + 1 {
            Err(HintError::TruncatedHint { length, available: (s.len() - idx - 1) as usize })
        } else {
            Ok((header_code(header), s.subrange(idx + 1, idx + 1 + length)))
        }
    }
}

/// A single hint of the processor's stream: a raw type and its data.
pub struct PrecompileHint {
    /// The type of hint, determining how the data should be processed.
    pub hint_type: u32,
    /// The hint payload data.
    pub data: Vec<u64>,
}

impl PrecompileHint {
    /// Parses the hint whose header sits at `idx` in `slice`.
    pub fn from_u64_slice(slice: &[u64], idx: usize) -> (r: Result<PrecompileHint, HintError>)
        ensures
            match r {
                Ok(h) => parse_raw_hint(slice@, idx as int) == Ok::<(u32, Seq<u64>), HintError>(
                    (h.hint_type, h.data@),
                ),
                Err(e) => parse_raw_hint(slice@, idx as int) == Err::<(u32, Seq<u64>), HintError>(
                    e,
                ),
            },
    {
        if slice.len() == 0 || idx >= slice.len() {
            return Err(HintError::IndexOutOfBounds);
        }
        let (hint_type, length) = split_header(slice[idx]);
        let available = slice.len() - idx - 1;
        if length as usize > available {
            return Err(HintError::TruncatedHint { length, available });
        }
        let start = idx + 1;
        let end = start + length as usize;
        let data = vstd::slice::slice_to_vec(&slice[start..end]);
        Ok(PrecompileHint { hint_type, data })
    }
}

/// The inputs of an ecrecover hint, split into its fields.
pub struct EcrecoverInput {
    /// Public key point: x (4 words) then y (4 words).
    pub pk: [u64; 8],
    /// Message hash.
    pub z: [u64; 4],
    /// Signature `r`.
    pub r: [u64; 4],
    /// Signature `s`.
    pub s: [u64; 4],
}

/// The work that one data hint needs.
pub enum HintTask {
    /// The result is the data itself.
    PassThrough(Vec<u64>),
    /// The result is the hint list of an ECDSA verification with these inputs.
    Ecrecover(EcrecoverInput),
}

/// Splits the data of an ecrecover hint into its fields; it must hold exactly 20 words.
pub fn ecrecover_input(data: &[u64]) -> (r: Result<EcrecoverInput, HintError>)
    ensures
        match r {
            Ok(inp) => {
                &&& data@.len() == ECRECOVER_HINT_LEN
                &&& inp.pk@ == data@.subrange(0, 8)
                &&& inp.z@ == data@.subrange(8, 12)
                &&& inp.r@ == data@.subrange(12, 16)
                &&& inp.s@ == data@.subrange(16, 20)
            },
            Err(e) => data@.len() != ECRECOVER_HINT_LEN && e == HintError::InvalidHintLength {
                hint: HintName::Ecrecover,
                expected: ECRECOVER_HINT_LEN as u128,
                got: data@.len() as usize,
            },
        },
{
    if data.len() != ECRECOVER_HINT_LEN {
        return Err(HintError::InvalidHintLength { hint: HintName::Ecrecover, expected: ECRECOVER_HINT_LEN as u128, got: data.len() });
    }
    let pk = [data[0], data[1], data[2], data[3], data[4], data[5], data[6], data[7]];
    let z = [data[8], data[9], data[10], data[11]];
    let r = [data[12], data[13], data[14], data[15]];
    let s = [data[16], data[17], data[18], data[19]];
    assert(pk@ =~= data@.subrange(0, 8));
    assert(z@ =~= data@.subrange(8, 12));
    assert(r@ =~= data@.subrange(12, 16));
    assert(s@ =~= data@.subrange(16, 20));
    Ok(EcrecoverInput { pk, z, r, s })
}

/// Decides what a dispatched hint needs: result hints pass their data through, ecrecover
/// hints need a verification over their inputs, any other type has no handler.
pub fn process_hint(hint: &PrecompileHint) -> (r: Result<HintTask, HintError>)
    ensures
        hint.hint_type == HINTS_TYPE_RESULT ==> (r matches Ok(HintTask::PassThrough(v)) && v@
            == hint.data@),
        hint.hint_type == HINTS_TYPE_ECRECOVER ==> match r {
            Ok(HintTask::Ecrecover(inp)) => {
                &&& hint.data@.len() == ECRECOVER_HINT_LEN
                &&& inp.pk@ == hint.data@.subrange(0, 8)
                &&& inp.z@ == hint.data@.subrange(8, 12)
                &&& inp.r@ == hint.data@.subrange(12, 16)
                &&& inp.s@ == hint.data@.subrange(16, 20)
            },
            Err(e) => hint.data@.len() != ECRECOVER_HINT_LEN && e == HintError::InvalidHintLength {
                hint: HintName::Ecrecover,
                expected: ECRECOVER_HINT_LEN as u128,
                got: hint.data@.len() as usize,
            },
            _ => false,
        },
        hint.hint_type != HINTS_TYPE_RESULT && hint.hint_type != HINTS_TYPE_ECRECOVER ==> r
            == Err::<HintTask, HintError>(HintError::UnknownHintType(hint.hint_type)),
{
    if hint.hint_type == HINTS_TYPE_RESULT {
        Ok(HintTask::PassThrough(vstd::slice::slice_to_vec(hint.data.as_slice())))
    } else if hint.hint_type == HINTS_TYPE_ECRECOVER {
        match ecrecover_input(hint.data.as_slice()) {
            Ok(inp) => Ok(HintTask::Ecrecover(inp)),
            Err(e) => Err(e),
        }
    } else {
        Err(HintError::UnknownHintType(hint.hint_type))
    }
}

} // verus!

verus! {

/// What a hint of type `t` with data `d` needs: its data passed through, or an ecrecover
/// verification over the inputs it holds.
pub open spec fn is_task_for(t: u32, d: Seq<u64>, task: HintTask) -> bool {
    match task {
        HintTask::PassThrough(v) => t == HINTS_TYPE_RESULT && v@ == d,
        HintTask::Ecrecover(inp) => {
            &&& t == HINTS_TYPE_ECRECOVER
            &&& d.len() == ECRECOVER_HINT_LEN
            &&& inp.pk@ == d.subrange(0, 8)
            &&& inp.z@ == d.subrange(8, 12)
            &&& inp.r@ == d.subrange(12, 16)
            &&& inp.s@ == d.subrange(16, 20)
        },
    }
}

/// Why a hint of type `t` with data `d` has no task, if it has none.
pub open spec fn task_error(t: u32, d: Seq<u64>) -> Option<HintError> {
    if t == HINTS_TYPE_RESULT {
        None
    } else if t == HINTS_TYPE_ECRECOVER {
        if d.len() == ECRECOVER_HINT_LEN {
            None
        } else {
            Some(HintError::InvalidHintLength { hint: HintName::Ecrecover, expected: ECRECOVER_HINT_LEN as u128, got: d.len() as usize })
        }
    } else {
        Some(HintError::UnknownHintType(t))
    }
}

/// The hint at `idx` of a stream processed one hint after another: its task and the
/// position of the next hint. A hint must hold data, fit in the stream and be a result or
/// a well-sized ecrecover hint.
pub fn sequential_hint_task(hints: &[u64], idx: usize) -> (r: Result<(HintTask, usize), HintError>)
    ensures
        match parse_raw_hint(hints@, idx as int) {
            Err(e) => r == Err::<(HintTask, usize), HintError>(e),
            Ok((t, d)) => if d.len() == 0 {
                r == Err::<(HintTask, usize), HintError>(HintError::EmptyHint)
            } else {
                match r {
                    Ok((task, next)) => next == idx + d.len() + 1 && is_task_for(t, d, task)
                        && task_error(t, d) is None,
                    Err(e) => task_error(t, d) == Some(e),
                }
            },
        },
{
    let hint = match PrecompileHint::from_u64_slice(hints, idx) {
        Ok(h) => h,
        Err(e) => {
            return Err(e);
        },
    };
    let length = hint.data.len();
    if length == 0 {
        return Err(HintError::EmptyHint);
    }
    let n = hints.len();
    assert(idx + length + 1 <= n) by {
        let header = hints@[idx as int];
        assert(hint.data@ == hints@.subrange(idx + 1, idx + 1 + header_length(header)));
    }
    match process_hint(&hint) {
        Ok(task) => Ok((task, idx + length + 1)),
        Err(e) => Err(e),
    }
}


/// The hints of a stream read one after another from position `i`, as type and data, or
/// the error that stops the reading: a hint must hold data, fit in the stream and be a
/// result or a well-sized ecrecover hint.
pub open spec fn sequential_plan(h: Seq<u64>, i: int) -> Result<Seq<(u32, Seq<u64>)>, HintError>
    decreases h.len() - i,
{
    if i < 0 || i >= h.len() {
        Ok(Seq::empty())
    } else {
        match parse_raw_hint(h, i) {
            Err(e) => Err(e),
            Ok((t, d)) => if d.len() == 0 {
                Err(HintError::EmptyHint)
            } else {
                match task_error(t, d) {
                    Some(e) => Err(e),
                    None => match sequential_plan(h, i + d.len() + 1) {
                        Ok(rest) => Ok(seq![(t, d)] + rest),
                        Err(e) => Err(e),
                    },
                }
            },
        }
    }
}

/// `p` followed by the hints of `r`, or the error of `r`.
pub open spec fn prepend_plan(
    p: Seq<(u32, Seq<u64>)>,
    r: Result<Seq<(u32, Seq<u64>)>, HintError>,
) -> Result<Seq<(u32, Seq<u64>)>, HintError> {
    match r {
        Ok(rest) => Ok(p + rest),
        Err(e) => Err(e),
    }
}

/// The number of ecrecover tasks among `ts`.
pub open spec fn ecrecover_tasks(ts: Seq<HintTask>) -> nat
    decreases ts.len(),
{
    if ts.len() == 0 {
        0
    } else {
        ecrecover_tasks(ts.drop_last()) + if ts.last() is Ecrecover {
            1nat
        } else {
            0nat
        }
    }
}

/// The output of the tasks `ts`, one after the other: the data of each pass-through task,
/// and for the `k`-th ecrecover task the hints `ecr[k]` that its verification produced.
pub open spec fn tasks_output(ts: Seq<HintTask>, ecr: Seq<Seq<u64>>) -> Seq<u64>
    decreases ts.len(),
{
    if ts.len() == 0 {
        Seq::empty()
    } else {
        let p = ts.drop_last();
        tasks_output(p, ecr) + match ts.last() {
            HintTask::PassThrough(v) => v@,
            HintTask::Ecrecover(_) => ecr[ecrecover_tasks(p) as int],
        }
    }
}

/// Whether `tasks` are the tasks of the hints read in `plan`, one by one.
pub open spec fn tasks_of_plan(plan: Seq<(u32, Seq<u64>)>, tasks: Seq<HintTask>) -> bool {
    &&& tasks.len() == plan.len()
    &&& forall|k: int| 0 <= k < plan.len() ==> is_task_for(plan[k].0, plan[k].1, #[trigger] tasks[k])
}

/// Checks that a whole stream can be read one hint after another: every hint holds data,
/// fits in the stream and is a result or a well-sized ecrecover hint. Gives the error
/// that stops the reading otherwise (see [`sequential_plan`]).
pub fn check_sequential_hints(hints: &[u64]) -> (r: Result<(), HintError>)
    ensures
        r is Ok <==> sequential_plan(hints@, 0) is Ok,
        r matches Err(e) ==> sequential_plan(hints@, 0) == Err::<Seq<(u32, Seq<u64>)>, HintError>(e),
{
    match read_sequential(hints) {
        Ok(_) => Ok(()),
        Err(e) => Err(e),
    }
}

/// The task of each hint of a stream read one hint after another, in order. The stream
/// must pass [`check_sequential_hints`]: a hint without data, of another type or that
/// runs past the end stops the whole process.
pub fn sequential_tasks(hints: &[u64]) -> (r: Vec<HintTask>)
    requires
        sequential_plan(hints@, 0) is Ok,
    ensures
        tasks_of_plan(sequential_plan(hints@, 0)->Ok_0, r@),
{
    match read_sequential(hints) {
        Ok(tasks) => tasks,
        Err(_) => Vec::new(),
    }
}

/// Reads a whole stream one hint after another and gives the task of each hint, in order
/// (see [`sequential_plan`]), or the error that stops the reading.
fn read_sequential(hints: &[u64]) -> (r: Result<Vec<HintTask>, HintError>)
    ensures
        match sequential_plan(hints@, 0) {
            Ok(plan) => r matches Ok(ts) && ts@.len() == plan.len() && forall|k: int|
                0 <= k < plan.len() ==> is_task_for(plan[k].0, plan[k].1, #[trigger] ts@[k]),
            Err(e) => r == Err::<Vec<HintTask>, HintError>(e),
        },
{
    let ghost h = hints@;
    let ghost mut p: Seq<(u32, Seq<u64>)> = Seq::empty();
    let mut tasks: Vec<HintTask> = Vec::new();
    let mut idx: usize = 0;
    assert(p + Seq::<(u32, Seq<u64>)>::empty() =~= p);
    while idx < hints.len()
        invariant
            h == hints@,
            idx <= hints@.len(),
            sequential_plan(h, 0) == prepend_plan(p, sequential_plan(h, idx as int)),
            tasks@.len() == p.len(),
            forall|k: int| 0 <= k < p.len() ==> is_task_for(p[k].0, p[k].1, #[trigger] tasks@[k]),
        decreases hints@.len() - idx,
    {
        match sequential_hint_task(hints, idx) {
            Ok((task, next)) => {
                let ghost (t, d) = parse_raw_hint(h, idx as int)->Ok_0;
                proof {
                    assert(sequential_plan(h, idx as int) == match sequential_plan(h, next as int) {
                        Ok(rest) => Ok(seq![(t, d)] + rest),
                        Err(e) => Err::<Seq<(u32, Seq<u64>)>, HintError>(e),
                    });
                    match sequential_plan(h, next as int) {
                        Ok(rest) => {
                            assert(p + (seq![(t, d)] + rest) =~= p.push((t, d)) + rest);
                        },
                        Err(_) => {},
                    }
                    p = p.push((t, d));
                }
                tasks.push(task);
                idx = next;
            },
            Err(e) => {
                return Err(e);
            },
        }
    }
    proof {
        assert(p + Seq::<(u32, Seq<u64>)>::empty() =~= p);
    }
    Ok(tasks)
}

/// Puts the output of a stream together: the data of each pass-through task and, for the
/// `k`-th ecrecover task, `ecrecover_outputs[k]`, one after the other.
pub fn assemble_outputs(tasks: &[HintTask], ecrecover_outputs: &[Vec<u64>]) -> (r: Vec<u64>)
    requires
        ecrecover_outputs@.len() == ecrecover_tasks(tasks@),
    ensures
        r@ == tasks_output(tasks@, vec_views(ecrecover_outputs@)),
{
    let mut out: Vec<u64> = Vec::new();
    let mut k: usize = 0;
    let mut e: usize = 0;
    while k < tasks.len()
        invariant
            k <= tasks@.len(),
            e == ecrecover_tasks(tasks@.subrange(0, k as int)),
            ecrecover_outputs@.len() == ecrecover_tasks(tasks@),
            out@ == tasks_output(tasks@.subrange(0, k as int), vec_views(ecrecover_outputs@)),
        decreases tasks@.len() - k,
    {
        proof {
            lemma_ecrecover_tasks_prefix(tasks@, (k + 1) as int);
            let q = tasks@.subrange(0, k + 1);
            assert(q.drop_last() =~= tasks@.subrange(0, k as int));
            assert(q.last() == tasks@[k as int]);
        }
        match &tasks[k] {
            HintTask::PassThrough(v) => {
                let mut part = vstd::slice::slice_to_vec(v.as_slice());
                out.append(&mut part);
            },
            HintTask::Ecrecover(_) => {
                let mut part = vstd::slice::slice_to_vec(ecrecover_outputs[e].as_slice());
                out.append(&mut part);
                e = e + 1;
            },
        }
        k = k + 1;
    }
    proof {
        assert(tasks@.subrange(0, tasks@.len() as int) =~= tasks@);
    }
    out
}

/// The ecrecover tasks of a prefix are no more than those of the whole.
proof fn lemma_ecrecover_tasks_prefix(ts: Seq<HintTask>, k: int)
    requires
        0 <= k <= ts.len(),
    ensures
        ecrecover_tasks(ts.subrange(0, k)) <= ecrecover_tasks(ts),
        k < ts.len() && ts[k] is Ecrecover ==> ecrecover_tasks(ts.subrange(0, k)) < ecrecover_tasks(ts),
    decreases ts.len() - k,
{
    if k < ts.len() {
        lemma_ecrecover_tasks_prefix(ts, k + 1);
        let q = ts.subrange(0, k + 1);
        assert(q.drop_last() =~= ts.subrange(0, k));
    } else {
        assert(ts.subrange(0, k) =~= ts);
    }
}

/// Shared state of the hints processor: the ordered result buffer, the next sequence id,
/// the error flag and the generation that invalidates workers of earlier streams.
pub struct HintProcessorState {
    queue: ResultQueue,
    next_seq: usize,
    error_flag: bool,
    generation: usize,
}

/// What the processor does with the hint at the current position of a batch.
pub enum BatchStep {
    /// No hint remains in the batch.
    Finished,
    /// A start control code reset the state; the batch continues at `next`.
    Started { next: usize },
    /// A result hint was completed on the spot; `data` is its result.
    Completed { data: Vec<u64>, next: usize },
    /// A data hint got slot `seq_id` of `generation` and must be processed by a worker.
    Dispatched { hint: PrecompileHint, generation: usize, seq_id: usize, next: usize },
    /// An end control code: wait for completion, then the batch ends at `next`.
    AwaitEnd { next: usize },
    /// The batch fails with this error.
    Failed(HintError),
}

impl HintProcessorState {
    /// The outstanding slots, from the front of the buffer.
    pub closed spec fn slots(&self) -> Seq<Slot> {
        self.queue.slots()
    }

    /// The sequence id of the front slot.
    pub closed spec fn drain_seq(&self) -> nat {
        self.queue.drain_seq()
    }

    /// The sequence id that the next reserved slot gets.
    pub closed spec fn spec_next_seq(&self) -> nat {
        self.next_seq as nat
    }

    /// Whether processing has stopped because of an error.
    pub closed spec fn spec_error(&self) -> bool {
        self.error_flag
    }

    /// The current generation.
    pub closed spec fn spec_generation(&self) -> nat {
        self.generation as nat
    }

    /// The slots are numbered consecutively up to the next sequence id.
    pub open spec fn wf(&self) -> bool {
        self.spec_next_seq() == self.drain_seq() + self.slots().len()
    }

    /// Whether the state of `b` equals that of `a` in every respect.
    pub open spec fn same_state(a: &Self, b: &Self) -> bool {
        &&& b.slots() == a.slots()
        &&& b.drain_seq() == a.drain_seq()
        &&& b.spec_next_seq() == a.spec_next_seq()
        &&& b.spec_error() == a.spec_error()
        &&& b.spec_generation() == a.spec_generation()
    }

    /// A fresh state: no slot, sequence at zero, no error, generation zero.
    pub fn new() -> (s: HintProcessorState)
        ensures
            s.wf(),
            s.slots() == Seq::<Slot>::empty(),
            s.drain_seq() == 0,
            s.spec_next_seq() == 0,
            !s.spec_error(),
            s.spec_generation() == 0,
    {
        HintProcessorState { queue: ResultQueue::new(), next_seq: 0, error_flag: false, generation: 0 }
    }

    /// Whether processing has stopped because of an error.
    pub fn error_flag(&self) -> (b: bool)
        ensures
            b == self.spec_error(),
    {
        self.error_flag
    }

    /// The current generation.
    pub fn generation(&self) -> (g: usize)
        ensures
            g == self.spec_generation(),
    {
        self.generation
    }

    /// The sequence id of the front slot.
    pub fn next_drain_seq(&self) -> (n: usize)
        ensures
            n == self.drain_seq(),
    {
        self.queue.next_drain_seq()
    }

    /// The sequence id that the next reserved slot gets.
    pub fn next_seq(&self) -> (n: usize)
        ensures
            n == self.spec_next_seq(),
    {
        self.next_seq
    }

    /// Number of outstanding slots.
    pub fn pending_len(&self) -> (n: usize)
        ensures
            n == self.slots().len(),
    {
        self.queue.len()
    }

    /// Resets the state for a fresh stream: clears the error and the buffer, restarts the
    /// sequence at zero and moves to the next generation (wrapping around).
    pub fn reset(&mut self)
        ensures
            final(self).wf(),
            final(self).slots() == Seq::<Slot>::empty(),
            final(self).drain_seq() == 0,
            final(self).spec_next_seq() == 0,
            !final(self).spec_error(),
            final(self).spec_generation() == (if old(self).spec_generation() == usize::MAX {
                0
            } else {
                old(self).spec_generation() + 1
            }),
    {
        self.error_flag = false;
        self.next_seq = 0;
        self.generation = self.generation.wrapping_add(1);
        self.queue.clear();
    }

    /// Sets the error flag.
    pub fn signal_error(&mut self)
        ensures
            final(self).spec_error(),
            final(self).slots() == old(self).slots(),
            final(self).drain_seq() == old(self).drain_seq(),
            final(self).spec_next_seq() == old(self).spec_next_seq(),
            final(self).spec_generation() == old(self).spec_generation(),
    {
        self.error_flag = true;
    }

    /// Reserves the next slot as pending; returns the current generation and its sequence id.
    pub fn reserve(&mut self) -> (r: (usize, usize))
        requires
            old(self).wf(),
            old(self).spec_next_seq() < usize::MAX,
        ensures
            final(self).wf(),
            r.0 == old(self).spec_generation(),
            r.1 == old(self).spec_next_seq(),
            final(self).slots() == old(self).slots().push(Slot::Pending),
            final(self).drain_seq() == old(self).drain_seq(),
            final(self).spec_next_seq() == old(self).spec_next_seq() + 1,
            final(self).spec_error() == old(self).spec_error(),
            final(self).spec_generation() == old(self).spec_generation(),
    {
        let seq = self.next_seq;
        self.next_seq = self.next_seq + 1;
        self.queue.push_pending();
        (self.generation, seq)
    }

    /// Stores the result of a worker. The result is dropped when the stream has failed,
    /// when the worker belongs to another generation, or when its slot is no longer
    /// outstanding; otherwise it fills slot `seq_id`. Returns whether it was stored.
    pub fn complete(&mut self, generation: usize, seq_id: usize, result: Result<Vec<u64>, HintError>) -> (stored: bool)
        requires
            old(self).wf(),
        ensures
            final(self).wf(),
            stored == (generation == old(self).spec_generation() && old(self).drain_seq() <= seq_id
                < old(self).spec_next_seq() && !old(self).spec_error()),
            stored ==> final(self).slots() == old(self).slots().update(
                seq_id - old(self).drain_seq(),
                match result {
                    Ok(v) => Slot::Ready(v),
                    Err(e) => Slot::Failed(e),
                },
            ),
            !stored ==> final(self).slots() == old(self).slots(),
            final(self).drain_seq() == old(self).drain_seq(),
            final(self).spec_next_seq() == old(self).spec_next_seq(),
            final(self).spec_error() == old(self).spec_error(),
            final(self).spec_generation() == old(self).spec_generation(),
            is_completion(old(self), final(self), generation, seq_id, result),
    {
        if generation != self.generation {
            return false;
        }
        let drain = self.queue.next_drain_seq();
        if seq_id < drain {
            return false;
        }
        let offset = seq_id - drain;
        if offset >= self.queue.len() {
            return false;
        }
        if self.error_flag {
            return false;
        }
        let slot = match result {
            Ok(v) => Slot::Ready(v),
            Err(e) => Slot::Failed(e),
        };
        self.queue.set_slot(offset, slot);
        true
    }

    /// Takes the front result out when it is ready or failed; a failed one sets the error
    /// flag. A pending front slot or an empty buffer yields `None`.
    pub fn drain_next(&mut self) -> (r: Option<Result<Vec<u64>, HintError>>)
        requires
            old(self).wf(),
        ensures
            final(self).wf(),
            final(self).spec_next_seq() == old(self).spec_next_seq(),
            final(self).spec_generation() == old(self).spec_generation(),
            match r {
                None => {
                    &&& final(self).slots() == old(self).slots()
                    &&& final(self).drain_seq() == old(self).drain_seq()
                    &&& final(self).spec_error() == old(self).spec_error()
                    &&& (old(self).slots().len() == 0 || old(self).slots()[0] is Pending)
                },
                Some(res) => {
                    &&& old(self).slots().len() > 0
                    &&& final(self).slots() == old(self).slots().drop_first()
                    &&& final(self).drain_seq() == old(self).drain_seq() + 1
                    &&& match res {
                        Ok(v) => {
                            &&& old(self).slots()[0] is Ready
                            &&& v@ == slot_payload(old(self).slots()[0])
                            &&& final(self).spec_error() == old(self).spec_error()
                        },
                        Err(e) => old(self).slots()[0] == Slot::Failed(e) && final(self).spec_error(),
                    }
                },
            },
    {
        let r = self.queue.pop_ready_front();
        if let Some(Err(_)) = &r {
            self.error_flag = true;
        }
        r
    }

    /// Takes out the ready results at the front of the buffer, in sequence order. When
    /// the slot after them failed, it is taken out too and the error flag is set.
    pub fn drain_ready(&mut self) -> (out: Vec<Vec<u64>>)
        requires
            old(self).wf(),
        ensures
            final(self).wf(),
            vec_views(out@) == payloads(old(self).slots(), ready_prefix_len(old(self).slots())),
            final(self).slots() == drained_slots(old(self).slots()),
            final(self).drain_seq() == old(self).drain_seq() + drained_count(old(self).slots()),
            final(self).spec_error() == (old(self).spec_error() || drain_fails(old(self).slots())),
            final(self).spec_next_seq() == old(self).spec_next_seq(),
            final(self).spec_generation() == old(self).spec_generation(),
    {
        let ghost b = self.slots();
        let ghost d0 = self.drain_seq();
        let ghost e0 = self.spec_error();
        let mut out: Vec<Vec<u64>> = Vec::new();
        proof {
            lemma_ready_prefix_bounds(b);
        }
        loop
            invariant_except_break
                self.wf(),
                out@.len() <= b.len(),
                self.slots() == b.skip(out@.len() as int),
                self.drain_seq() == d0 + out@.len(),
                forall|i: int| 0 <= i < out@.len() ==> (#[trigger] b[i]) is Ready,
                vec_views(out@) == payloads(b, out@.len()),
                self.spec_error() == e0,
                self.spec_next_seq() == old(self).spec_next_seq(),
                self.spec_generation() == old(self).spec_generation(),
            ensures
                self.wf(),
                vec_views(out@) == payloads(b, ready_prefix_len(b)),
                self.slots() == drained_slots(b),
                self.drain_seq() == d0 + drained_count(b),
                self.spec_error() == (e0 || drain_fails(b)),
                self.spec_next_seq() == old(self).spec_next_seq(),
                self.spec_generation() == old(self).spec_generation(),
            decreases self.slots().len(),
        {
            let ghost c = out@.len();
            match self.drain_next() {
                None => {
                    proof {
                        lemma_ready_prefix_len(b, c);
                        assert(vec_views(out@) =~= payloads(b, ready_prefix_len(b)));
                    }
                    break;
                },
                Some(Ok(v)) => {
                    let ghost old_out = out@;
                    let ghost pv = v@;
                    out.push(v);
                    proof {
                        assert(self.slots() =~= b.skip(out@.len() as int));
                        assert(b[c as int] == b.skip(c as int)[0]);
                        assert(pv == slot_payload(b[c as int]));
                        assert forall|i: int| 0 <= i < out@.len() implies vec_views(out@)[i]
                            == payloads(b, out@.len())[i] by {
                            if i < c {
                                assert(out@[i] == old_out[i]);
                                assert(vec_views(old_out)[i] == payloads(b, c)[i]);
                            } else {
                                assert(out@[i]@ == pv);
                            }
                        }
                        assert(vec_views(out@) =~= payloads(b, out@.len()));
                    }
                },
                Some(Err(_)) => {
                    proof {
                        assert(b[c as int] == b.skip(c as int)[0]);
                        lemma_ready_prefix_len(b, c);
                        assert(self.slots() =~= b.skip(c + 1 as int));
                        assert(vec_views(out@) =~= payloads(b, ready_prefix_len(b)));
                    }
                    break;
                },
            }
        }
        out
    }

    /// What the drainer hands the sink now: nothing while processing is stopped by an
    /// error; otherwise the ready results at the front, in sequence order, as
    /// [`Self::drain_ready`] takes them out.
    pub fn drain_for_sink(&mut self) -> (out: Vec<Vec<u64>>)
        requires
            old(self).wf(),
        ensures
            final(self).wf(),
            old(self).spec_error() ==> out@.len() == 0 && HintProcessorState::same_state(old(self), final(self)),
            !old(self).spec_error() ==> {
                &&& vec_views(out@) == payloads(old(self).slots(), ready_prefix_len(old(self).slots()))
                &&& final(self).slots() == drained_slots(old(self).slots())
                &&& final(self).drain_seq() == old(self).drain_seq() + drained_count(old(self).slots())
                &&& final(self).spec_error() == drain_fails(old(self).slots())
                &&& final(self).spec_next_seq() == old(self).spec_next_seq()
                &&& final(self).spec_generation() == old(self).spec_generation()
            },
            is_sink_drain(old(self), final(self), vec_views(out@)),
    {
        if self.error_flag {
            proof {
                assert(vec_views(Seq::<Vec<u64>>::empty()) =~= Seq::<Seq<u64>>::empty());
            }
            return Vec::new();
        }
        self.drain_ready()
    }

    /// Whether waiting for completion is over: an error ends it with an error, an empty
    /// buffer ends it successfully, and otherwise the caller keeps waiting (`None`).
    pub fn completion_status(&self) -> (r: Option<Result<(), HintError>>)
        ensures
            self.spec_error() ==> r == Some(Err::<(), HintError>(HintError::StoppedByPreviousError)),
            !self.spec_error() && self.slots().len() == 0 ==> r == Some(Ok::<(), HintError>(())),
            !self.spec_error() && self.slots().len() > 0 ==> r is None,
    {
        if self.error_flag {
            Some(Err(HintError::StoppedByPreviousError))
        } else if self.queue.is_empty() {
            Some(Ok(()))
        } else {
            None
        }
    }
}


/// The state change that a start control code makes: a reset.
pub open spec fn is_reset_of(old_s: &HintProcessorState, new_s: &HintProcessorState) -> bool {
    &&& new_s.slots() == Seq::<Slot>::empty()
    &&& new_s.drain_seq() == 0
    &&& new_s.spec_next_seq() == 0
    &&& !new_s.spec_error()
    &&& new_s.spec_generation() == (if old_s.spec_generation() == usize::MAX {
        0
    } else {
        old_s.spec_generation() + 1
    })
}

/// A start code changes the generation, so that no result of a worker of the generation
/// before it is stored afterwards.
pub proof fn lemma_reset_changes_generation(s: &HintProcessorState, t: &HintProcessorState)
    requires
        is_reset_of(s, t),
    ensures
        t.spec_generation() != s.spec_generation(),
{
}

/// After a reset the stream resumes: no earlier error stops the next batch, and a result
/// hint at its start is completed into the first slot of the fresh sequence.
pub proof fn lemma_reset_resumes(
    s: &HintProcessorState,
    t: &HintProcessorState,
    u: &HintProcessorState,
    hints: Seq<u64>,
    first_batch: bool,
    by_code: bool,
    r: &BatchStep,
)
    requires
        is_reset_of(s, t),
        step_spec(t, u, hints, 0, first_batch, by_code, r),
        hints.len() > 0,
    ensures
        *r != BatchStep::Failed(HintError::StoppedByPreviousError),
        match parse_raw_hint(hints, 0) {
            Ok((ty, d)) => ty == HINTS_TYPE_RESULT ==> {
                &&& *r matches BatchStep::Completed { data, .. } && data@ == d
                &&& u.slots().len() == 1
                &&& u.slots()[0] is Ready
                &&& u.drain_seq() == 0
                &&& u.spec_next_seq() == 1
                &&& !u.spec_error()
            },
            Err(_) => true,
        },
{
    match parse_raw_hint(hints, 0) {
        Ok((ty, d)) => {
            if ty == HINTS_TYPE_RESULT {
                let x = choose|x: Vec<u64>| #[trigger] is_inline_completion_with(t, u, x) && x@ == d;
                assert(u.slots() == Seq::<Slot>::empty().push(Slot::Ready(x)));
            }
        },
        Err(_) => {},
    }
}

/// The state change of a control code that stops the stream: only the error flag is set.
pub open spec fn is_stop_of(old_s: &HintProcessorState, new_s: &HintProcessorState) -> bool {
    &&& new_s.slots() == old_s.slots()
    &&& new_s.drain_seq() == old_s.drain_seq()
    &&& new_s.spec_next_seq() == old_s.spec_next_seq()
    &&& new_s.spec_error()
    &&& new_s.spec_generation() == old_s.spec_generation()
}

/// The state change of a result hint completed on the spot with the copy `x` of its data:
/// a slot is reserved and filled with `x`, for the drainer to hand on in order.
pub open spec fn is_inline_completion_with(
    old_s: &HintProcessorState,
    new_s: &HintProcessorState,
    x: Vec<u64>,
) -> bool {
    &&& new_s.slots() == old_s.slots().push(Slot::Ready(x))
    &&& new_s.drain_seq() == old_s.drain_seq()
    &&& new_s.spec_error() == old_s.spec_error()
    &&& new_s.spec_next_seq() == old_s.spec_next_seq() + 1
    &&& new_s.spec_generation() == old_s.spec_generation()
}

/// The state change of a result hint with data `d`, completed on the spot.
pub open spec fn is_inline_completion_of(
    old_s: &HintProcessorState,
    new_s: &HintProcessorState,
    d: Seq<u64>,
) -> bool {
    exists|x: Vec<u64>| #[trigger] is_inline_completion_with(old_s, new_s, x) && x@ == d
}

/// The state change of a dispatched hint: a pending slot is reserved.
pub open spec fn is_reservation_of(old_s: &HintProcessorState, new_s: &HintProcessorState) -> bool {
    &&& new_s.slots() == old_s.slots().push(Slot::Pending)
    &&& new_s.drain_seq() == old_s.drain_seq()
    &&& new_s.spec_next_seq() == old_s.spec_next_seq() + 1
    &&& new_s.spec_error() == old_s.spec_error()
    &&& new_s.spec_generation() == old_s.spec_generation()
}

/// The error for a hint type outside the accepted range: a processor that reads the type as
/// a hint code reports an unknown code, one that checks the type's range reports an
/// invalid type.
pub open spec fn unknown_type_error(ty: u32, by_code: bool) -> HintError {
    if by_code {
        HintError::UnknownHintCode(ty)
    } else {
        HintError::InvalidHintType(ty)
    }
}

/// The step that the processor takes on the hint at `idx` of `hints`, given the state
/// before it (`s`) and after it (`t`), and the step it returns (`r`). `by_code` tells
/// whether the hint type is read as a hint code (see [`unknown_type_error`]).
pub open spec fn step_spec(
    s: &HintProcessorState,
    t: &HintProcessorState,
    hints: Seq<u64>,
    idx: int,
    first_batch: bool,
    by_code: bool,
    r: &BatchStep,
) -> bool {
    if idx >= hints.len() {
        *r is Finished && HintProcessorState::same_state(s, t)
    } else if s.spec_error() {
        *r == BatchStep::Failed(HintError::StoppedByPreviousError) && HintProcessorState::same_state(s, t)
    } else {
        match parse_raw_hint(hints, idx) {
            Err(e) => *r == BatchStep::Failed(e) && HintProcessorState::same_state(s, t),
            Ok((ty, d)) => {
                let next = idx + d.len() + 1;
                if ty >= NUM_HINT_TYPES {
                    *r == BatchStep::Failed(unknown_type_error(ty, by_code)) && HintProcessorState::same_state(s, t)
                } else if ty == CTRL_START {
                    if !first_batch {
                        *r == BatchStep::Failed(HintError::StartNotInFirstBatch) && HintProcessorState::same_state(s, t)
                    } else if idx != 0 {
                        *r == BatchStep::Failed(HintError::StartNotFirst { index: idx as usize })
                            && HintProcessorState::same_state(s, t)
                    } else {
                        (*r matches BatchStep::Started { next: n } && n == next) && is_reset_of(s, t)
                    }
                } else if ty == CTRL_END {
                    (*r matches BatchStep::AwaitEnd { next: n } && n == next) && HintProcessorState::same_state(s, t)
                } else if ty == CTRL_CANCEL {
                    *r == BatchStep::Failed(HintError::StreamCancelled) && is_stop_of(s, t)
                } else if ty == CTRL_ERROR {
                    *r == BatchStep::Failed(HintError::StreamErrorSignalled) && is_stop_of(s, t)
                } else if ty == HINTS_TYPE_RESULT {
                    (*r matches BatchStep::Completed { data, next: n } && n == next && data@ == d)
                        && is_inline_completion_of(s, t, d)
                } else {
                    (*r matches BatchStep::Dispatched { hint, generation, seq_id, next: n } && n
                        == next && hint.hint_type == ty && hint.data@ == d && generation
                        == s.spec_generation() && seq_id == s.spec_next_seq()) && is_reservation_of(s, t)
                }
            },
        }
    }
}

/// The slot that the outcome of a worker fills.
pub open spec fn outcome_slot(r: Result<Vec<u64>, HintError>) -> Slot {
    match r {
        Ok(v) => Slot::Ready(v),
        Err(e) => Slot::Failed(e),
    }
}

/// The state change of a worker handing in `result` for slot `seq_id` of `generation`:
/// stored when the generation is current, the slot is outstanding and processing goes on;
/// dropped otherwise.
pub open spec fn is_completion(
    s: &HintProcessorState,
    t: &HintProcessorState,
    generation: usize,
    seq_id: usize,
    result: Result<Vec<u64>, HintError>,
) -> bool {
    let stored = generation == s.spec_generation() && s.drain_seq() <= seq_id < s.spec_next_seq()
        && !s.spec_error();
    &&& t.slots() == (if stored {
        s.slots().update(seq_id - s.drain_seq(), outcome_slot(result))
    } else {
        s.slots()
    })
    &&& t.drain_seq() == s.drain_seq()
    &&& t.spec_next_seq() == s.spec_next_seq()
    &&& t.spec_error() == s.spec_error()
    &&& t.spec_generation() == s.spec_generation()
}

/// The state change of the drainer handing `out` to the sink: nothing while processing is
/// stopped; otherwise the ready results at the front, in order, with a failed slot after
/// them taken out too and stopping processing.
pub open spec fn is_sink_drain(s: &HintProcessorState, t: &HintProcessorState, out: Seq<Seq<u64>>) -> bool {
    if s.spec_error() {
        out.len() == 0 && HintProcessorState::same_state(s, t)
    } else {
        &&& out == payloads(s.slots(), ready_prefix_len(s.slots()))
        &&& t.slots() == drained_slots(s.slots())
        &&& t.drain_seq() == s.drain_seq() + drained_count(s.slots())
        &&& t.spec_error() == drain_fails(s.slots())
        &&& t.spec_next_seq() == s.spec_next_seq()
        &&& t.spec_generation() == s.spec_generation()
    }
}

/// Everything handed to the sink over the rounds `outs`, one round after the other.
pub open spec fn sink_output(outs: Seq<Seq<Seq<u64>>>) -> Seq<Seq<u64>>
    decreases outs.len(),
{
    if outs.len() == 0 {
        Seq::empty()
    } else {
        sink_output(outs.drop_last()) + outs.last()
    }
}

/// A run of the drainer: `n` slots of generation `g` reserved from a fresh sequence; in
/// round `t` the worker of sequence id `order[t]` hands in its result (state `2t` to
/// `2t + 1`), then the drainer hands `outs[t]` to the sink (state `2t + 1` to `2t + 2`).
pub open spec fn drainer_run(
    states: Seq<HintProcessorState>,
    outs: Seq<Seq<Seq<u64>>>,
    results: Seq<Result<Vec<u64>, HintError>>,
    order: Seq<int>,
    g: usize,
) -> bool {
    let n = results.len();
    &&& states.len() == 2 * n + 1
    &&& outs.len() == n
    &&& states[0].wf()
    &&& states[0].slots() == Seq::new(n, |i: int| Slot::Pending)
    &&& states[0].drain_seq() == 0
    &&& !states[0].spec_error()
    &&& states[0].spec_generation() == g
    &&& forall|t: int|
        0 <= t < n ==> #[trigger] is_completion(
            &states[2 * t],
            &states[2 * t + 1],
            g,
            order[t] as usize,
            results[order[t]],
        ) && is_sink_drain(&states[2 * t + 1], &states[2 * t + 2], outs[t])
}

proof fn lemma_drainer_rounds(
    states: Seq<HintProcessorState>,
    outs: Seq<Seq<Seq<u64>>>,
    results: Seq<Result<Vec<u64>, HintError>>,
    order: Seq<int>,
    g: usize,
    t: nat,
)
    requires
        drainer_run(states, outs, results, order, g),
        t <= results.len(),
        order.len() == results.len(),
        forall|i: int| 0 <= i < results.len() ==> 0 <= #[trigger] order[i] < results.len(),
        forall|i: int, k: int| 0 <= i < results.len() && 0 <= k < results.len() && i != k ==> order[i] != order[k],
    ensures
        ({
            let outcomes = results.map_values(|r: Result<Vec<u64>, HintError>| outcome_slot(r));
            let (b, d, e, o) = run_outcome_rounds(results.len(), outcomes, order, t);
            &&& states[(2 * t) as int].slots() == b
            &&& states[(2 * t) as int].drain_seq() == d
            &&& states[(2 * t) as int].spec_error() == e
            &&& states[(2 * t) as int].spec_generation() == g
            &&& states[(2 * t) as int].spec_next_seq() == results.len()
            &&& sink_output(outs.take(t as int)) == o
        }),
    decreases t,
{
    let n = results.len();
    let outcomes = results.map_values(|r: Result<Vec<u64>, HintError>| outcome_slot(r));
    assert forall|i: int| 0 <= i < n implies !(#[trigger] outcomes[i] is Pending) by {}
    if t == 0 {
        assert(outs.take(0) =~= Seq::<Seq<Seq<u64>>>::empty());
        assert(states[0].slots() =~= Seq::new(n, |i: int| Slot::Pending));
    } else {
        let tp = (t - 1) as nat;
        lemma_drainer_rounds(states, outs, results, order, g, tp);
        lemma_outcome_rounds_inv(n, outcomes, order, tp);
        let (b, d, e, o) = run_outcome_rounds(n, outcomes, order, tp);
        let s0 = states[(2 * tp) as int];
        let s1 = states[(2 * tp + 1) as int];
        let s2 = states[(2 * tp + 2) as int];
        assert(is_completion(&s0, &s1, g, order[tp as int] as usize, results[order[tp as int]]));
        assert(is_sink_drain(&s1, &s2, outs[tp as int]));
        assert(outs.take(t as int).drop_last() =~= outs.take(tp as int));
        assert(outs.take(t as int).last() == outs[tp as int]);
        if e {
            assert(o + outs[tp as int] =~= o);
        } else {
            let j = order[tp as int];
            let ft = order.subrange(0, tp as int);
            assert(!ft.contains(j)) by {
                if ft.contains(j) {
                    let i = choose|i: int| 0 <= i < ft.len() && ft[i] == j;
                    assert(order[i] == order[tp as int]);
                }
            }
            assert(j >= d) by {
                if j < d {
                    assert(ft.contains(j));
                }
            }
            assert(outcomes[j] == outcome_slot(results[j]));
            assert(s1.slots() == fill_outcome(b, d, j, outcomes[j]));
        }
    }
}

/// The drainer hands the sink the results in sequence order, each once, and none after a
/// failure: over any run of the drainer (see [`drainer_run`]) in which every reserved
/// slot gets its worker's result once, in any order, the sink gets the results of the
/// hints before the first failed one, in sequence order, and processing ends stopped
/// exactly when a hint failed.
pub proof fn lemma_drainer_hands_results_in_order(
    states: Seq<HintProcessorState>,
    outs: Seq<Seq<Seq<u64>>>,
    results: Seq<Result<Vec<u64>, HintError>>,
    order: Seq<int>,
    g: usize,
)
    requires
        drainer_run(states, outs, results, order, g),
        order.len() == results.len(),
        forall|i: int| 0 <= i < results.len() ==> 0 <= #[trigger] order[i] < results.len(),
        forall|i: int, k: int| 0 <= i < results.len() && 0 <= k < results.len() && i != k ==> order[i] != order[k],
        forall|j: int| 0 <= j < results.len() ==> #[trigger] order.contains(j),
    ensures
        ({
            let outcomes = results.map_values(|r: Result<Vec<u64>, HintError>| outcome_slot(r));
            &&& sink_output(outs) == payloads(outcomes, ready_prefix_len(outcomes))
            &&& states[(2 * results.len()) as int].spec_error() == (ready_prefix_len(outcomes) < results.len())
        }),
{
    let n = results.len();
    let outcomes = results.map_values(|r: Result<Vec<u64>, HintError>| outcome_slot(r));
    assert forall|i: int| 0 <= i < n implies !(#[trigger] outcomes[i] is Pending) by {}
    lemma_drainer_rounds(states, outs, results, order, g, n);
    lemma_outcomes_drain_in_order(n, outcomes, order);
    assert(outs.take(n as int) =~= outs);
}

/// Once processing stopped on an error it stays stopped until a reset: over any run of
/// steps, each on a hint inside its batch, every step fails with the earlier error before
/// reading its hint, and no step changes the state.
pub proof fn lemma_stopped_until_reset(
    states: Seq<HintProcessorState>,
    batches: Seq<Seq<u64>>,
    idxs: Seq<int>,
    firsts: Seq<bool>,
    by_code: bool,
    steps: Seq<BatchStep>,
)
    requires
        states.len() == steps.len() + 1,
        batches.len() == steps.len(),
        idxs.len() == steps.len(),
        firsts.len() == steps.len(),
        states[0].spec_error(),
        forall|i: int| 0 <= i < steps.len() ==> 0 <= #[trigger] idxs[i] < batches[i].len(),
        forall|i: int|
            0 <= i < steps.len() ==> #[trigger] step_spec(
                &states[i],
                &states[i + 1],
                batches[i],
                idxs[i],
                firsts[i],
                by_code,
                &steps[i],
            ),
    ensures
        forall|i: int| 0 <= i < steps.len() ==> #[trigger] steps[i] == BatchStep::Failed(
            HintError::StoppedByPreviousError,
        ),
        forall|i: int| 0 <= i < states.len() ==> HintProcessorState::same_state(&states[0], #[trigger] &states[i]),
{
    assert forall|i: int| 0 <= i < states.len() implies HintProcessorState::same_state(&states[0], #[trigger] &states[i]) by {
        lemma_stopped_prefix(states, batches, idxs, firsts, by_code, steps, i);
    }
    assert forall|i: int| 0 <= i < steps.len() implies #[trigger] steps[i] == BatchStep::Failed(
        HintError::StoppedByPreviousError,
    ) by {
        lemma_stopped_prefix(states, batches, idxs, firsts, by_code, steps, i);
        assert(step_spec(&states[i], &states[i + 1], batches[i], idxs[i], firsts[i], by_code, &steps[i]));
        assert(0 <= idxs[i] < batches[i].len());
    }
}

proof fn lemma_stopped_prefix(
    states: Seq<HintProcessorState>,
    batches: Seq<Seq<u64>>,
    idxs: Seq<int>,
    firsts: Seq<bool>,
    by_code: bool,
    steps: Seq<BatchStep>,
    i: int,
)
    requires
        states.len() == steps.len() + 1,
        batches.len() == steps.len(),
        idxs.len() == steps.len(),
        firsts.len() == steps.len(),
        states[0].spec_error(),
        forall|k: int| 0 <= k < steps.len() ==> 0 <= #[trigger] idxs[k] < batches[k].len(),
        forall|k: int|
            0 <= k < steps.len() ==> #[trigger] step_spec(
                &states[k],
                &states[k + 1],
                batches[k],
                idxs[k],
                firsts[k],
                by_code,
                &steps[k],
            ),
        0 <= i < states.len(),
    ensures
        HintProcessorState::same_state(&states[0], &states[i]),
    decreases i,
{
    if i > 0 {
        let k = i - 1;
        lemma_stopped_prefix(states, batches, idxs, firsts, by_code, steps, k);
        assert(step_spec(&states[k], &states[k + 1], batches[k], idxs[k], firsts[k], by_code, &steps[k]));
        assert(0 <= idxs[k] < batches[k].len());
        assert(k + 1 == i);
    }
}

impl HintProcessorState {
    /// Takes one step of a batch: decides what the hint at `idx` of `hints` means and
    /// updates the state accordingly (see [`step_spec`]). A hint type outside the accepted
    /// range is an invalid type.
    ///
    /// A start code resets the state and is only accepted first in the first batch; an
    /// end code asks the caller to wait for completion; cancel and error codes stop the
    /// stream; a result hint is completed on the spot; any other data hint is reserved a
    /// slot and handed back for a worker.
    pub fn process_step(&mut self, hints: &[u64], idx: usize, first_batch: bool) -> (r: BatchStep)
        requires
            old(self).wf(),
            !old(self).spec_error() ==> old(self).spec_next_seq() < usize::MAX,
        ensures
            final(self).wf(),
            step_spec(old(self), final(self), hints@, idx as int, first_batch, false, &r),
    {
        self.take_step(hints, idx, first_batch, false)
    }

    /// Takes one step of a batch whose hint types are read as hint codes: the same step as
    /// [`Self::process_step`], except that a type outside the accepted range is an unknown
    /// hint code.
    pub fn process_code_step(&mut self, hints: &[u64], idx: usize, first_batch: bool) -> (r: BatchStep)
        requires
            old(self).wf(),
            !old(self).spec_error() ==> old(self).spec_next_seq() < usize::MAX,
        ensures
            final(self).wf(),
            step_spec(old(self), final(self), hints@, idx as int, first_batch, true, &r),
    {
        self.take_step(hints, idx, first_batch, true)
    }

    fn take_step(&mut self, hints: &[u64], idx: usize, first_batch: bool, by_code: bool) -> (r: BatchStep)
        requires
            old(self).wf(),
            !old(self).spec_error() ==> old(self).spec_next_seq() < usize::MAX,
        ensures
            final(self).wf(),
            step_spec(old(self), final(self), hints@, idx as int, first_batch, by_code, &r),
    {
        if idx >= hints.len() {
            return BatchStep::Finished;
        }
        if self.error_flag {
            return BatchStep::Failed(HintError::StoppedByPreviousError);
        }
        let hint = match PrecompileHint::from_u64_slice(hints, idx) {
            Ok(h) => h,
            Err(e) => {
                return BatchStep::Failed(e);
            },
        };
        let next = idx + hint.data.len() + 1;
        let ty = hint.hint_type;
        if ty >= NUM_HINT_TYPES {
            if by_code {
                return BatchStep::Failed(HintError::UnknownHintCode(ty));
            }
            return BatchStep::Failed(HintError::InvalidHintType(ty));
        }
        if ty == CTRL_START {
            if !first_batch {
                return BatchStep::Failed(HintError::StartNotInFirstBatch);
            }
            if idx != 0 {
                return BatchStep::Failed(HintError::StartNotFirst { index: idx });
            }
            self.reset();
            return BatchStep::Started { next };
        }
        if ty == CTRL_END {
            return BatchStep::AwaitEnd { next };
        }
        if ty == CTRL_CANCEL {
            self.error_flag = true;
            return BatchStep::Failed(HintError::StreamCancelled);
        }
        if ty == CTRL_ERROR {
            self.error_flag = true;
            return BatchStep::Failed(HintError::StreamErrorSignalled);
        }
        let ghost s0 = *self;
        let (generation, seq_id) = self.reserve();
        if ty == HINTS_TYPE_RESULT {
            let copy = vstd::slice::slice_to_vec(hint.data.as_slice());
            let ghost x = copy;
            let offset = seq_id - self.queue.next_drain_seq();
            self.queue.set_slot(offset, Slot::Ready(copy));
            proof {
                assert(self.slots() =~= s0.slots().push(Slot::Ready(x)));
            }
            assert(is_inline_completion_with(&s0, self, x));
            return BatchStep::Completed { data: hint.data, next };
        }
        BatchStep::Dispatched { hint, generation, seq_id, next }
    }
}

/// What an end control code amounts to once the caller has waited for completion: the
/// end code must be the last hint of its batch.
pub fn finish_end(next: usize, batch_len: usize) -> (r: Result<bool, HintError>)
    ensures
        next < batch_len ==> r == Err::<bool, HintError>(HintError::EndNotLast { remaining: (batch_len - next) as usize }),
        next >= batch_len ==> r == Ok::<bool, HintError>(true),
{
    if next < batch_len {
        Err(HintError::EndNotLast { remaining: batch_len - next })
    } else {
        Ok(true)
    }
}

} // verus!
