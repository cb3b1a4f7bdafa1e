//! A batch of the processor that hands its sink one vector per batch.
//!
//! This processor collects the data of the result hints of a batch as it reads them and,
//! once the whole batch went through without an error, hands their concatenation to the
//! sink in one piece. A batch that fails hands nothing. Results are drained from the
//! buffer on the spot, so the buffer only serves to detect a failed hint in order.

use crate::error::HintError;
use crate::hint_format::{header_code, header_length};
use crate::hints_processor::{finish_end, step_spec, BatchStep, HintProcessorState, HINTS_TYPE_RESULT};
use crate::result_queue::{drain_fails, drained_count, drained_slots};
use vstd::prelude::*;

verus! {

/// Position of the hint that follows the one whose header sits at `i`.
pub open spec fn next_hint(h: Seq<u64>, i: int) -> int {
    i + header_length(h[i]) + 1
}

/// What the hint at `i` contributes to the batch's output: its data for a result hint,
/// nothing for any other hint.
pub open spec fn result_part(h: Seq<u64>, i: int) -> Seq<u64> {
    if header_code(h[i]) == HINTS_TYPE_RESULT {
        h.subrange(i + 1, next_hint(h, i))
    } else {
        Seq::empty()
    }
}

/// Whether walking from hint to hint, starting at the header at `i`, lands on `j`.
pub open spec fn reaches(h: Seq<u64>, i: int, j: int) -> bool
    decreases j - i,
{
    if i == j {
        true
    } else if i > j || i < 0 || i >= h.len() {
        false
    } else if next_hint(h, i) > j {
        false
    } else {
        reaches(h, next_hint(h, i), j)
    }
}

/// The output of the hints walked from `i` up to `j`: the data of their result hints, in
/// order.
pub open spec fn results_between(h: Seq<u64>, i: int, j: int) -> Seq<u64>
    decreases j - i,
{
    if i < 0 || i >= j || i >= h.len() {
        Seq::empty()
    } else if next_hint(h, i) > j {
        Seq::empty()
    } else {
        result_part(h, i) + results_between(h, next_hint(h, i), j)
    }
}

/// The output of a whole batch: the data of all its result hints, in order.
pub open spec fn batch_results(h: Seq<u64>) -> Seq<u64> {
    results_between(h, 0, h.len() as int)
}

/// Walking one more hint appends that hint's contribution to the output.
pub proof fn lemma_walk_step(h: Seq<u64>, i: int, j: int)
    requires
        reaches(h, i, j),
        0 <= i,
        0 <= j < h.len(),
        next_hint(h, j) <= h.len(),
    ensures
        reaches(h, i, next_hint(h, j)),
        results_between(h, i, next_hint(h, j)) == results_between(h, i, j) + result_part(h, j),
    decreases j - i,
{
    let n = next_hint(h, j);
    if i == j {
        assert(results_between(h, n, n) == Seq::<u64>::empty());
        assert(results_between(h, j, j) == Seq::<u64>::empty());
        assert(reaches(h, n, n));
        assert(results_between(h, j, n) =~= result_part(h, j));
    } else {
        let m = next_hint(h, i);
        lemma_walk_step(h, m, j);
        assert(results_between(h, i, n) == result_part(h, i) + results_between(h, m, n));
        assert(results_between(h, i, j) == result_part(h, i) + results_between(h, m, j));
        assert(results_between(h, i, n) =~= results_between(h, i, j) + result_part(h, j));
    }
}

/// The state change of draining the ready results at the front of the buffer.
pub open spec fn is_drain_of(s: &HintProcessorState, t: &HintProcessorState) -> bool {
    &&& t.slots() == drained_slots(s.slots())
    &&& t.drain_seq() == s.drain_seq() + drained_count(s.slots())
    &&& t.spec_error() == (s.spec_error() || drain_fails(s.slots()))
    &&& t.spec_next_seq() == s.spec_next_seq()
    &&& t.spec_generation() == s.spec_generation()
}

/// What follows a step of this processor: a result completed on the spot is drained
/// right away; any other step leaves the state as the step left it.
pub open spec fn settles(mid: &HintProcessorState, t: &HintProcessorState, r: &BatchStep) -> bool {
    if *r is Completed {
        is_drain_of(mid, t)
    } else {
        HintProcessorState::same_state(mid, t)
    }
}

/// One batch: its hints, the position of the next hint, the output collected so far and
/// how the batch stands.
pub struct HintBatch {
    hints: Vec<u64>,
    first_batch: bool,
    pos: usize,
    processed: Vec<u64>,
    failed: bool,
    awaiting_end: bool,
    ended: bool,
}

impl HintBatch {
    /// The hints of the batch.
    pub closed spec fn spec_hints(&self) -> Seq<u64> {
        self.hints@
    }

    /// Whether this is the first batch of the stream.
    pub closed spec fn spec_first_batch(&self) -> bool {
        self.first_batch
    }

    /// The position of the next hint.
    pub closed spec fn spec_pos(&self) -> int {
        self.pos as int
    }

    /// The output collected so far.
    pub closed spec fn spec_processed(&self) -> Seq<u64> {
        self.processed@
    }

    /// Whether the batch failed.
    pub closed spec fn spec_failed(&self) -> bool {
        self.failed
    }

    /// Whether the batch met an end code and waits for completion.
    pub closed spec fn spec_awaiting_end(&self) -> bool {
        self.awaiting_end
    }

    /// Whether the batch ended the stream with an end code.
    pub closed spec fn spec_ended(&self) -> bool {
        self.ended
    }

    /// The position lies on a hint boundary of the batch, and the output collected is that
    /// of the hints before it.
    pub open spec fn wf(&self) -> bool {
        &&& 0 <= self.spec_pos() <= self.spec_hints().len()
        &&& reaches(self.spec_hints(), 0, self.spec_pos())
        &&& self.spec_processed() == results_between(self.spec_hints(), 0, self.spec_pos())
    }

    /// Whether the batch still reads hints.
    pub open spec fn is_open(&self) -> bool {
        !self.spec_failed() && !self.spec_awaiting_end() && !self.spec_ended()
    }

    /// Whether the batch is over: it failed, or it went through to its end.
    pub open spec fn is_done(&self) -> bool {
        self.spec_failed() || (!self.spec_awaiting_end() && self.spec_pos() == self.spec_hints().len())
    }

    /// Whether `b` is `a` with only the position and the output changed.
    pub open spec fn advanced(a: &Self, b: &Self, next: int, out: Seq<u64>) -> bool {
        &&& b.spec_hints() == a.spec_hints()
        &&& b.spec_first_batch() == a.spec_first_batch()
        &&& b.spec_pos() == next
        &&& b.spec_processed() == out
        &&& b.spec_failed() == a.spec_failed()
        &&& b.spec_awaiting_end() == a.spec_awaiting_end()
        &&& b.spec_ended() == a.spec_ended()
    }

    /// How a step changes the batch: the position moves past the hint read, a result hint
    /// adds its data to the output, an end code makes the batch wait for completion and a
    /// failed step fails the batch.
    pub open spec fn step_effect(a: &Self, b: &Self, r: &BatchStep) -> bool {
        match *r {
            BatchStep::Finished => Self::advanced(a, b, a.spec_pos(), a.spec_processed()),
            BatchStep::Started { next } => Self::advanced(a, b, next as int, a.spec_processed()),
            BatchStep::Dispatched { next, .. } => Self::advanced(a, b, next as int, a.spec_processed()),
            BatchStep::Completed { data, next } => Self::advanced(
                a,
                b,
                next as int,
                a.spec_processed() + data@,
            ),
            BatchStep::AwaitEnd { next } => {
                &&& b.spec_hints() == a.spec_hints()
                &&& b.spec_first_batch() == a.spec_first_batch()
                &&& b.spec_pos() == next
                &&& b.spec_processed() == a.spec_processed()
                &&& !b.spec_failed()
                &&& b.spec_awaiting_end()
                &&& !b.spec_ended()
            },
            BatchStep::Failed(_) => {
                &&& b.spec_hints() == a.spec_hints()
                &&& b.spec_first_batch() == a.spec_first_batch()
                &&& b.spec_pos() == a.spec_pos()
                &&& b.spec_processed() == a.spec_processed()
                &&& b.spec_failed()
                &&& !b.spec_awaiting_end()
                &&& !b.spec_ended()
            },
        }
    }

    /// A batch of `hints` at its start.
    pub fn new(hints: Vec<u64>, first_batch: bool) -> (b: HintBatch)
        ensures
            b.wf(),
            b.is_open(),
            b.spec_hints() == hints@,
            b.spec_first_batch() == first_batch,
            b.spec_pos() == 0,
            b.spec_processed() == Seq::<u64>::empty(),
    {
        let b = HintBatch {
            hints,
            first_batch,
            pos: 0,
            processed: Vec::new(),
            failed: false,
            awaiting_end: false,
            ended: false,
        };
        assert(b.processed@ =~= results_between(b.hints@, 0, 0));
        b
    }

    /// Whether the batch ended the stream with an end code.
    pub fn has_end(&self) -> (b: bool)
        ensures
            b == self.spec_ended(),
    {
        self.ended
    }

    /// Whether the batch failed.
    pub fn failed(&self) -> (b: bool)
        ensures
            b == self.spec_failed(),
    {
        self.failed
    }

    /// Reads the next hint of the batch: takes the processor's step on it (see
    /// [`step_spec`]), drains the buffer after a result completed on the spot, and records
    /// the step in the batch (see [`Self::step_effect`]).
    pub fn step(&mut self, state: &mut HintProcessorState) -> (r: BatchStep)
        requires
            old(self).wf(),
            old(self).is_open(),
            old(state).wf(),
            !old(state).spec_error() ==> old(state).spec_next_seq() < usize::MAX,
        ensures
            final(self).wf(),
            final(state).wf(),
            Self::step_effect(old(self), final(self), &r),
            exists|mid: HintProcessorState|
                #[trigger] step_spec(
                    old(state),
                    &mid,
                    old(self).spec_hints(),
                    old(self).spec_pos(),
                    old(self).spec_first_batch(),
                    false,
                    &r,
                ) && settles(&mid, final(state), &r),
    {
        let ghost h = self.hints@;
        let ghost i = self.pos as int;
        let r = state.process_step(self.hints.as_slice(), self.pos, self.first_batch);
        let ghost mid = *state;
        match &r {
            BatchStep::Finished => {},
            BatchStep::Started { next } => {
                proof {
                    lemma_walk_step(h, 0, i);
                    assert(result_part(h, i) =~= Seq::<u64>::empty());
                    assert(self.processed@ =~= results_between(h, 0, *next as int));
                }
                self.pos = *next;
            },
            BatchStep::Dispatched { next, .. } => {
                proof {
                    lemma_walk_step(h, 0, i);
                    assert(result_part(h, i) =~= Seq::<u64>::empty());
                    assert(self.processed@ =~= results_between(h, 0, *next as int));
                }
                self.pos = *next;
            },
            BatchStep::Completed { data, next } => {
                proof {
                    assert(next_hint(h, i) == *next as int);
                    lemma_walk_step(h, 0, i);
                    assert(result_part(h, i) =~= data@);
                }
                let mut extra = vstd::slice::slice_to_vec(data.as_slice());
                self.processed.append(&mut extra);
                self.pos = *next;
                let _ = state.drain_ready();
            },
            BatchStep::AwaitEnd { next } => {
                proof {
                    lemma_walk_step(h, 0, i);
                    assert(result_part(h, i) =~= Seq::<u64>::empty());
                    assert(self.processed@ =~= results_between(h, 0, *next as int));
                }
                self.pos = *next;
                self.awaiting_end = true;
            },
            BatchStep::Failed(_) => {
                self.failed = true;
            },
        }
        assert(step_spec(
            old(state),
            &mid,
            old(self).spec_hints(),
            old(self).spec_pos(),
            old(self).spec_first_batch(),
            false,
            &r,
        ) && settles(&mid, state, &r));
        r
    }

    /// Closes an end code once the caller has waited for completion (`waited` is what the
    /// wait gave): a failed wait fails the batch, and the end code must be the last hint.
    /// Returns whether the batch ended the stream.
    pub fn close_end(&mut self, waited: Result<(), HintError>) -> (r: Result<bool, HintError>)
        requires
            old(self).wf(),
            old(self).spec_awaiting_end(),
            !old(self).spec_failed(),
            !old(self).spec_ended(),
        ensures
            final(self).wf(),
            final(self).spec_hints() == old(self).spec_hints(),
            final(self).spec_first_batch() == old(self).spec_first_batch(),
            final(self).spec_pos() == old(self).spec_pos(),
            final(self).spec_processed() == old(self).spec_processed(),
            !final(self).spec_awaiting_end(),
            match waited {
                Err(e) => r == Err::<bool, HintError>(e) && final(self).spec_failed() && !final(self).spec_ended(),
                Ok(_) => if old(self).spec_pos() < old(self).spec_hints().len() {
                    &&& r == Err::<bool, HintError>(HintError::EndNotLast {
                        remaining: (old(self).spec_hints().len() - old(self).spec_pos()) as usize,
                    })
                    &&& final(self).spec_failed()
                    &&& !final(self).spec_ended()
                } else {
                    r == Ok::<bool, HintError>(true) && !final(self).spec_failed() && final(self).spec_ended()
                },
            },
    {
        self.awaiting_end = false;
        match waited {
            Err(e) => {
                self.failed = true;
                Err(e)
            },
            Ok(()) => {
                let r = finish_end(self.pos, self.hints.len());
                match r {
                    Ok(_) => {
                        self.ended = true;
                    },
                    Err(_) => {
                        self.failed = true;
                    },
                }
                r
            },
        }
    }

    /// What the batch hands its sink once it is over: nothing after a failure; otherwise
    /// the data of all its result hints, in order, unless there is none.
    pub fn finish_batch(self) -> (r: Option<Vec<u64>>)
        requires
            self.wf(),
            self.is_done(),
        ensures
            self.spec_failed() ==> r is None,
            !self.spec_failed() ==> match r {
                None => batch_results(self.spec_hints()).len() == 0,
                Some(v) => v@ == batch_results(self.spec_hints()) && v@.len() > 0,
            },
    {
        if self.failed || self.processed.len() == 0 {
            None
        } else {
            Some(self.processed)
        }
    }
}

} // verus!
