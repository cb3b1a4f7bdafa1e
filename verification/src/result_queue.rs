//! Ordered result buffer of the hint processors.
//!
//! Hints get consecutive sequence ids when they are reserved. Their results may be
//! filled in any order, but they leave the buffer only from the front, so results come
//! out in the order the hints were received.

use crate::error::HintError;
use std::collections::VecDeque;
use vstd::prelude::*;

verus! {

/// The state of one reserved slot.
pub enum Slot {
    /// The hint is still being processed.
    Pending,
    /// The hint produced this result.
    Ready(Vec<u64>),
    /// The hint failed with this error.
    Failed(HintError),
}

/// The payload of a ready slot.
pub open spec fn slot_payload(s: Slot) -> Seq<u64> {
    match s {
        Slot::Ready(v) => v@,
        _ => Seq::empty(),
    }
}

/// The number of ready slots at the front of `b`.
pub open spec fn ready_prefix_len(b: Seq<Slot>) -> nat
    decreases b.len(),
{
    if b.len() > 0 && b[0] is Ready {
        1 + ready_prefix_len(b.drop_first())
    } else {
        0
    }
}

/// The payloads of the first `k` slots of `b`.
pub open spec fn payloads(b: Seq<Slot>, k: nat) -> Seq<Seq<u64>> {
    Seq::new(k, |i: int| slot_payload(b[i]))
}

/// The views of a vector of payload vectors.
pub open spec fn vec_views(v: Seq<Vec<u64>>) -> Seq<Seq<u64>> {
    v.map_values(|x: Vec<u64>| x@)
}

/// `k` is the length of the ready prefix exactly when the first `k` slots are ready and
/// the slot after them (if any) is not.
pub proof fn lemma_ready_prefix_len(b: Seq<Slot>, k: nat)
    requires
        k <= b.len(),
        forall|i: int| 0 <= i < k ==> (#[trigger] b[i]) is Ready,
        k < b.len() ==> !(b[k as int] is Ready),
    ensures
        ready_prefix_len(b) == k,
    decreases k,
{
    if k > 0 {
        assert(b[0] is Ready);
        let t = b.drop_first();
        assert forall|i: int| 0 <= i < k - 1 implies (#[trigger] t[i]) is Ready by {
            assert(t[i] == b[i + 1]);
        }
        if k - 1 < t.len() {
            assert(t[k - 1] == b[k as int]);
        }
        lemma_ready_prefix_len(t, (k - 1) as nat);
    }
}

/// The ready prefix never extends past the buffer, and all of its slots are ready.
pub proof fn lemma_ready_prefix_bounds(b: Seq<Slot>)
    ensures
        ready_prefix_len(b) <= b.len(),
        forall|i: int| 0 <= i < ready_prefix_len(b) ==> (#[trigger] b[i]) is Ready,
        ready_prefix_len(b) < b.len() ==> !(b[ready_prefix_len(b) as int] is Ready),
    decreases b.len(),
{
    if b.len() > 0 && b[0] is Ready {
        let t = b.drop_first();
        lemma_ready_prefix_bounds(t);
        assert forall|i: int| 0 <= i < ready_prefix_len(b) implies (#[trigger] b[i]) is Ready by {
            if i > 0 {
                assert(b[i] == t[i - 1]);
            }
        }
        if ready_prefix_len(b) < b.len() {
            assert(b[ready_prefix_len(b) as int] == t[ready_prefix_len(t) as int]);
        }
    }
}


/// Draining never gets past a slot that is not ready: nothing at or after a failed or
/// pending slot is handed out.
pub proof fn lemma_drain_stops_before(b: Seq<Slot>, k: int)
    requires
        0 <= k < b.len(),
        !(b[k] is Ready),
    ensures
        ready_prefix_len(b) <= k,
{
    lemma_ready_prefix_bounds(b);
    if ready_prefix_len(b) > k {
        assert(b[k] is Ready);
    }
}

/// Whether draining `b` stops at a failed slot.
pub open spec fn drain_fails(b: Seq<Slot>) -> bool {
    ready_prefix_len(b) < b.len() && b[ready_prefix_len(b) as int] is Failed
}

/// How many slots draining `b` removes: the ready prefix, plus the failed slot after it.
pub open spec fn drained_count(b: Seq<Slot>) -> nat {
    if drain_fails(b) {
        ready_prefix_len(b) + 1
    } else {
        ready_prefix_len(b)
    }
}

/// The slots that remain after draining `b`.
pub open spec fn drained_slots(b: Seq<Slot>) -> Seq<Slot> {
    b.skip(drained_count(b) as int)
}

/// Ordered result buffer: slot `i` holds the result of sequence id `next_drain_seq + i`.
pub struct ResultQueue {
    buffer: VecDeque<Slot>,
    next_drain_seq: usize,
}

impl ResultQueue {
    /// The slots, from the oldest outstanding sequence id on.
    pub closed spec fn slots(&self) -> Seq<Slot> {
        self.buffer@
    }

    /// The sequence id of the front slot.
    pub closed spec fn drain_seq(&self) -> nat {
        self.next_drain_seq as nat
    }

    /// An empty buffer whose next sequence id is zero.
    pub fn new() -> (q: ResultQueue)
        ensures
            q.slots() == Seq::<Slot>::empty(),
            q.drain_seq() == 0,
    {
        ResultQueue { buffer: VecDeque::new(), next_drain_seq: 0 }
    }

    /// Number of outstanding slots.
    pub fn len(&self) -> (n: usize)
        ensures
            n == self.slots().len(),
    {
        self.buffer.len()
    }

    /// Whether no slot is outstanding.
    pub fn is_empty(&self) -> (b: bool)
        ensures
            b == (self.slots().len() == 0),
    {
        self.buffer.len() == 0
    }

    /// The sequence id of the front slot.
    pub fn next_drain_seq(&self) -> (n: usize)
        ensures
            n == self.drain_seq(),
    {
        self.next_drain_seq
    }

    /// Removes every slot and restarts the sequence at zero.
    pub fn clear(&mut self)
        ensures
            final(self).slots() == Seq::<Slot>::empty(),
            final(self).drain_seq() == 0,
    {
        self.buffer.clear();
        self.next_drain_seq = 0;
    }

    /// Appends a pending slot at the back.
    pub fn push_pending(&mut self)
        ensures
            final(self).slots() == old(self).slots().push(Slot::Pending),
            final(self).drain_seq() == old(self).drain_seq(),
    {
        self.buffer.push_back(Slot::Pending);
    }

    /// Replaces the slot at `offset` from the front.
    pub fn set_slot(&mut self, offset: usize, slot: Slot)
        requires
            offset < old(self).slots().len(),
        ensures
            final(self).slots() == old(self).slots().update(offset as int, slot),
            final(self).drain_seq() == old(self).drain_seq(),
    {
        let ghost b = self.buffer@;
        let _ = self.buffer.remove(offset);
        self.buffer.insert(offset, slot);
        assert(self.buffer@ =~= b.update(offset as int, slot));
    }

    /// Takes the front slot out if it is ready or failed. A ready front slot yields its
    /// payload; a failed one yields its error. A pending front slot, or an empty buffer,
    /// yields `None` and leaves the buffer unchanged.
    pub fn pop_ready_front(&mut self) -> (r: Option<Result<Vec<u64>, HintError>>)
        requires
            old(self).drain_seq() + old(self).slots().len() <= usize::MAX,
        ensures
            match r {
                None => {
                    &&& final(self).slots() == old(self).slots()
                    &&& final(self).drain_seq() == old(self).drain_seq()
                    &&& (old(self).slots().len() == 0 || old(self).slots()[0] is Pending)
                },
                Some(res) => {
                    &&& old(self).slots().len() > 0
                    &&& final(self).slots() == old(self).slots().drop_first()
                    &&& final(self).drain_seq() == old(self).drain_seq() + 1
                    &&& match res {
                        Ok(v) => old(self).slots()[0] is Ready && v@ == slot_payload(
                            old(self).slots()[0],
                        ),
                        Err(e) => old(self).slots()[0] == Slot::Failed(e),
                    }
                },
            },
    {
        if self.buffer.len() == 0 {
            return None;
        }
        let front_is_pending = match &self.buffer[0] {
            Slot::Pending => true,
            _ => false,
        };
        if front_is_pending {
            return None;
        }
        let ghost b = self.buffer@;
        let front = self.buffer.pop_front();
        assert(self.buffer@ =~= b.drop_first());
        self.next_drain_seq = self.next_drain_seq + 1;
        match front {
            Some(Slot::Ready(v)) => Some(Ok(v)),
            Some(Slot::Failed(e)) => Some(Err(e)),
            _ => None,
        }
    }
}


/// The slots after the result `v` of sequence id `seq` is stored into the buffer `b` whose
/// front slot has sequence id `drain` (results outside the buffer are dropped).
pub open spec fn fill_slot(b: Seq<Slot>, drain: nat, seq: int, v: Vec<u64>) -> Seq<Slot> {
    if drain <= seq < drain + b.len() {
        b.update(seq - drain, Slot::Ready(v))
    } else {
        b
    }
}

/// Runs `t` rounds over `n` freshly reserved slots: round `i` stores the result of
/// sequence id `order[i]`, then drains the buffer. Returns the slots, the sequence id of
/// the front slot and the concatenation of everything drained.
pub open spec fn run_rounds(n: nat, results: Seq<Vec<u64>>, order: Seq<int>, t: nat) -> (
    Seq<Slot>,
    nat,
    Seq<Seq<u64>>,
)
    decreases t,
{
    if t == 0 {
        (Seq::new(n, |i: int| Slot::Pending), 0, Seq::empty())
    } else {
        let (b, d, o) = run_rounds(n, results, order, (t - 1) as nat);
        let j = order[t - 1];
        let b1 = fill_slot(b, d, j, results[j]);
        (drained_slots(b1), d + drained_count(b1), o + payloads(b1, ready_prefix_len(b1)))
    }
}

/// The slots of sequence ids `d..n` when the ids in `order[0..t]` are filled.
pub open spec fn expected_slots(n: nat, results: Seq<Vec<u64>>, order: Seq<int>, t: nat, d: nat) -> Seq<Slot> {
    Seq::new(
        (n - d) as nat,
        |i: int|
            if order.subrange(0, t as int).contains(d + i) {
                Slot::Ready(results[d + i])
            } else {
                Slot::Pending
            },
    )
}

/// What holds after `t` rounds: every id below the front has been filled, the front id has
/// not, the output holds exactly the results of the ids below the front, in order.
pub open spec fn rounds_inv(n: nat, results: Seq<Vec<u64>>, order: Seq<int>, t: nat) -> bool {
    let (b, d, o) = run_rounds(n, results, order, t);
    &&& d <= n
    &&& forall|j: int| 0 <= j < d ==> order.subrange(0, t as int).contains(j)
    &&& d < n ==> !order.subrange(0, t as int).contains(d as int)
    &&& o == vec_views(results).subrange(0, d as int)
    &&& b == expected_slots(n, results, order, t, d)
}

proof fn lemma_rounds_inv(n: nat, results: Seq<Vec<u64>>, order: Seq<int>, t: nat)
    requires
        results.len() == n,
        order.len() == n,
        t <= n,
        forall|i: int| 0 <= i < n ==> 0 <= #[trigger] order[i] < n,
        forall|i: int, k: int| 0 <= i < n && 0 <= k < n && i != k ==> order[i] != order[k],
    ensures
        rounds_inv(n, results, order, t),
    decreases t,
{
    if t == 0 {
        let (b, d, o) = run_rounds(n, results, order, 0);
        assert(order.subrange(0, 0) =~= Seq::<int>::empty());
        assert(b =~= expected_slots(n, results, order, 0, 0));
        assert(o =~= vec_views(results).subrange(0, 0));
    } else {
        let tp = (t - 1) as nat;
        lemma_rounds_inv(n, results, order, tp);
        let (b, d, o) = run_rounds(n, results, order, tp);
        let j = order[tp as int];
        let ft = order.subrange(0, tp as int);
        let ft1 = order.subrange(0, t as int);
        assert(ft1 =~= ft.push(j));
        assert forall|x: int| #[trigger] ft1.contains(x) <==> (ft.contains(x) || x == j) by {
            if ft1.contains(x) {
                let i = choose|i: int| 0 <= i < ft1.len() && ft1[i] == x;
                if i < tp {
                    assert(ft[i] == x);
                }
            }
            if ft.contains(x) {
                let i = choose|i: int| 0 <= i < ft.len() && ft[i] == x;
                assert(ft1[i] == x);
            }
            if x == j {
                assert(ft1[tp as int] == x);
            }
        }
        // j has not been filled before
        assert(!ft.contains(j)) by {
            if ft.contains(j) {
                let i = choose|i: int| 0 <= i < ft.len() && ft[i] == j;
                assert(order[i] == order[tp as int]);
            }
        }
        assert(0 <= j < n);
        assert(j >= d) by {
            if j < d {
                assert(ft.contains(j));
            }
        }
        let b1 = fill_slot(b, d, j, results[j]);
        assert(b1 =~= b.update(j - d, Slot::Ready(results[j])));
        if j != d {
            assert(d < n);
            assert(b1[0] == b[0]);
            assert(b1[0] is Pending);
            lemma_ready_prefix_len(b1, 0);
            assert(drained_slots(b1) =~= b1);
            assert(payloads(b1, 0) =~= Seq::<Seq<u64>>::empty());
            assert(o + payloads(b1, 0) =~= o);
            assert(b1 =~= expected_slots(n, results, order, t, d));
        } else {
            lemma_ready_prefix_bounds(b1);
            let k = ready_prefix_len(b1);
            assert forall|i: int| 0 <= i < b1.len() implies (#[trigger] b1[i] is Ready) == ft1.contains(d + i) by {
                if i == 0 {
                } else {
                    assert(b1[i] == b[i]);
                }
            }
            assert forall|i: int| 0 <= i < b1.len() && b1[i] is Ready implies #[trigger] slot_payload(b1[i]) == results[d + i]@ by {
                if i == 0 {
                } else {
                    assert(b1[i] == b[i]);
                }
            }
            let d2 = d + k;
            assert(!drain_fails(b1));
            assert forall|x: int| 0 <= x < d2 implies ft1.contains(x) by {
                if x >= d {
                    assert(b1[x - d] is Ready);
                } else {
                    assert(ft.contains(x));
                }
            }
            if d2 < n {
                assert(!(b1[k as int] is Ready));
            }
            assert(payloads(b1, k) =~= vec_views(results).subrange(d as int, d2 as int));
            assert(o + payloads(b1, k) =~= vec_views(results).subrange(0, d2 as int));
            assert(drained_slots(b1) =~= expected_slots(n, results, order, t, d2)) by {
                assert forall|i: int| 0 <= i < n - d2 implies #[trigger] drained_slots(b1)[i]
                    == expected_slots(n, results, order, t, d2)[i] by {
                    assert(drained_slots(b1)[i] == b1[k + i]);
                    if ft1.contains(d2 + i) {
                        assert(b1[k + i] is Ready);
                        if d + k + i != d {
                            assert(b1[k + i] == b[k + i]);
                        }
                    } else {
                        assert(!(b1[k + i] is Ready));
                        assert(b1[k + i] == b[k + i]);
                    }
                }
            }
        }
    }
}

/// Results leave the buffer in sequence order, whatever order the workers finish in: when
/// `n` freshly reserved slots are filled in the order `order` (each sequence id once), and
/// the buffer is drained after every fill, everything drained, put together, is the `n`
/// results in sequence order, and the buffer ends empty.
pub proof fn lemma_results_drain_in_order(n: nat, results: Seq<Vec<u64>>, order: Seq<int>)
    requires
        results.len() == n,
        order.len() == n,
        forall|i: int| 0 <= i < n ==> 0 <= #[trigger] order[i] < n,
        forall|i: int, k: int| 0 <= i < n && 0 <= k < n && i != k ==> order[i] != order[k],
        forall|j: int| 0 <= j < n ==> #[trigger] order.contains(j),
    ensures
        run_rounds(n, results, order, n).2 == vec_views(results),
        run_rounds(n, results, order, n).0 == Seq::<Slot>::empty(),
        run_rounds(n, results, order, n).1 == n,
{
    lemma_rounds_inv(n, results, order, n);
    let (b, d, o) = run_rounds(n, results, order, n);
    assert(order.subrange(0, n as int) =~= order);
    if d < n {
        assert(order.contains(d as int));
    }
    assert(vec_views(results).subrange(0, n as int) =~= vec_views(results));
    assert(b =~= Seq::<Slot>::empty());
}

/// The slots after the outcome `r` of sequence id `seq` is stored into the buffer `b`
/// whose front slot has sequence id `drain` (outcomes outside the buffer are dropped).
pub open spec fn fill_outcome(b: Seq<Slot>, drain: nat, seq: int, r: Slot) -> Seq<Slot> {
    if drain <= seq < drain + b.len() {
        b.update(seq - drain, r)
    } else {
        b
    }
}

/// Runs `t` rounds over `n` freshly reserved slots whose workers end with `outcomes`
/// (each a result or a failure): round `i` stores the outcome of sequence id `order[i]`,
/// then hands the sink the ready results at the front. Once a failure was drained,
/// processing is stopped: no outcome is stored and nothing is handed on. Returns the
/// slots, the sequence id of the front slot, whether processing stopped, and everything
/// handed to the sink.
pub open spec fn run_outcome_rounds(n: nat, outcomes: Seq<Slot>, order: Seq<int>, t: nat) -> (
    Seq<Slot>,
    nat,
    bool,
    Seq<Seq<u64>>,
)
    decreases t,
{
    if t == 0 {
        (Seq::new(n, |i: int| Slot::Pending), 0, false, Seq::empty())
    } else {
        let (b, d, e, o) = run_outcome_rounds(n, outcomes, order, (t - 1) as nat);
        if e {
            (b, d, e, o)
        } else {
            let j = order[t - 1];
            let b1 = fill_outcome(b, d, j, outcomes[j]);
            (drained_slots(b1), d + drained_count(b1), drain_fails(b1), o + payloads(b1, ready_prefix_len(b1)))
        }
    }
}

/// The slots of sequence ids `d..n` when the ids in `order[0..t]` have their outcomes.
pub open spec fn expected_outcome_slots(n: nat, outcomes: Seq<Slot>, order: Seq<int>, t: nat, d: nat) -> Seq<Slot> {
    Seq::new(
        (n - d) as nat,
        |i: int|
            if order.subrange(0, t as int).contains(d + i) {
                outcomes[d + i]
            } else {
                Slot::Pending
            },
    )
}

/// What holds after `t` rounds: while processing goes on, every id below the front has its
/// outcome, a result, and the front id has none yet, and the sink got the results of the
/// ids below the front; once it stopped, the sink got the results before the first
/// failure.
pub open spec fn outcome_rounds_inv(n: nat, outcomes: Seq<Slot>, order: Seq<int>, t: nat) -> bool {
    let (b, d, e, o) = run_outcome_rounds(n, outcomes, order, t);
    let f = ready_prefix_len(outcomes);
    &&& d <= n
    &&& !e ==> {
        &&& d <= f
        &&& forall|j: int| 0 <= j < d ==> order.subrange(0, t as int).contains(j)
        &&& d < n ==> !order.subrange(0, t as int).contains(d as int)
        &&& o == payloads(outcomes, d)
        &&& b == expected_outcome_slots(n, outcomes, order, t, d)
    }
    &&& e ==> f < n && o == payloads(outcomes, f)
}

proof fn lemma_ready_prefix_at_least(b: Seq<Slot>, m: nat)
    requires
        m <= b.len(),
        forall|i: int| 0 <= i < m ==> (#[trigger] b[i]) is Ready,
    ensures
        m <= ready_prefix_len(b),
{
    lemma_ready_prefix_bounds(b);
    if ready_prefix_len(b) < m {
        assert(b[ready_prefix_len(b) as int] is Ready);
    }
}

pub(crate) proof fn lemma_outcome_rounds_inv(n: nat, outcomes: Seq<Slot>, order: Seq<int>, t: nat)
    requires
        outcomes.len() == n,
        order.len() == n,
        t <= n,
        forall|i: int| 0 <= i < n ==> !(#[trigger] outcomes[i] is Pending),
        forall|i: int| 0 <= i < n ==> 0 <= #[trigger] order[i] < n,
        forall|i: int, k: int| 0 <= i < n && 0 <= k < n && i != k ==> order[i] != order[k],
    ensures
        outcome_rounds_inv(n, outcomes, order, t),
    decreases t,
{
    lemma_ready_prefix_bounds(outcomes);
    let f = ready_prefix_len(outcomes);
    if t == 0 {
        let (b, d, e, o) = run_outcome_rounds(n, outcomes, order, 0);
        assert(order.subrange(0, 0) =~= Seq::<int>::empty());
        assert(b =~= expected_outcome_slots(n, outcomes, order, 0, 0));
        assert(o =~= payloads(outcomes, 0));
    } else {
        let tp = (t - 1) as nat;
        lemma_outcome_rounds_inv(n, outcomes, order, tp);
        let (b, d, e, o) = run_outcome_rounds(n, outcomes, order, tp);
        if !e {
            let j = order[tp as int];
            let ft = order.subrange(0, tp as int);
            let ft1 = order.subrange(0, t as int);
            assert(ft1 =~= ft.push(j));
            assert forall|x: int| #[trigger] ft1.contains(x) <==> (ft.contains(x) || x == j) by {
                if ft1.contains(x) {
                    let i = choose|i: int| 0 <= i < ft1.len() && ft1[i] == x;
                    if i < tp {
                        assert(ft[i] == x);
                    }
                }
                if ft.contains(x) {
                    let i = choose|i: int| 0 <= i < ft.len() && ft[i] == x;
                    assert(ft1[i] == x);
                }
                if x == j {
                    assert(ft1[tp as int] == x);
                }
            }
            assert(!ft.contains(j)) by {
                if ft.contains(j) {
                    let i = choose|i: int| 0 <= i < ft.len() && ft[i] == j;
                    assert(order[i] == order[tp as int]);
                }
            }
            assert(0 <= j < n);
            assert(j >= d) by {
                if j < d {
                    assert(ft.contains(j));
                }
            }
            let b1 = fill_outcome(b, d, j, outcomes[j]);
            assert(b1 =~= b.update(j - d, outcomes[j]));
            if j != d {
                assert(d < n);
                assert(b1[0] == b[0]);
                assert(b1[0] is Pending);
                lemma_ready_prefix_len(b1, 0);
                assert(!drain_fails(b1));
                assert(drained_slots(b1) =~= b1);
                assert(payloads(b1, 0) =~= Seq::<Seq<u64>>::empty());
                assert(o + payloads(b1, 0) =~= o);
                assert(b1 =~= expected_outcome_slots(n, outcomes, order, t, d));
            } else {
                lemma_ready_prefix_bounds(b1);
                let k = ready_prefix_len(b1);
                assert forall|i: int| 0 <= i < b1.len() implies #[trigger] b1[i] == (if ft1.contains(d + i) {
                    outcomes[d + i]
                } else {
                    Slot::Pending
                }) by {
                    if i != 0 {
                        assert(b1[i] == b[i]);
                    }
                }
                assert forall|i: int| 0 <= i < d + k implies (#[trigger] outcomes[i]) is Ready by {
                    if i >= d {
                        assert(b1[i - d] is Ready);
                    }
                }
                assert(payloads(b1, k) =~= payloads(outcomes, d + k).subrange(d as int, (d + k) as int));
                assert(o + payloads(b1, k) =~= payloads(outcomes, d + k));
                if drain_fails(b1) {
                    assert(b1[k as int] is Failed);
                    assert(outcomes[(d + k) as int] is Failed);
                    lemma_ready_prefix_len(outcomes, d + k);
                } else {
                    let d2 = d + k;
                    lemma_ready_prefix_at_least(outcomes, d2);
                    assert forall|x: int| 0 <= x < d2 implies ft1.contains(x) by {
                        if x >= d {
                            assert(b1[x - d] is Ready);
                        } else {
                            assert(ft.contains(x));
                        }
                    }
                    if d2 < n {
                        assert(!(b1[k as int] is Ready));
                        assert(!(b1[k as int] is Failed));
                    }
                    assert(drained_slots(b1) =~= expected_outcome_slots(n, outcomes, order, t, d2)) by {
                        assert forall|i: int| 0 <= i < n - d2 implies #[trigger] drained_slots(b1)[i]
                            == expected_outcome_slots(n, outcomes, order, t, d2)[i] by {
                            assert(drained_slots(b1)[i] == b1[k + i]);
                        }
                    }
                }
            }
        }
    }
}

/// Results leave the buffer in sequence order, and none after a failure: whatever order
/// the workers finish in, when each of `n` freshly reserved slots gets its outcome once
/// and the ready results are handed on after every outcome, the sink gets the results of
/// the hints before the first failed one, in sequence order, and processing ends stopped
/// exactly when a hint failed.
pub proof fn lemma_outcomes_drain_in_order(n: nat, outcomes: Seq<Slot>, order: Seq<int>)
    requires
        outcomes.len() == n,
        forall|i: int| 0 <= i < n ==> !(#[trigger] outcomes[i] is Pending),
        order.len() == n,
        forall|i: int| 0 <= i < n ==> 0 <= #[trigger] order[i] < n,
        forall|i: int, k: int| 0 <= i < n && 0 <= k < n && i != k ==> order[i] != order[k],
        forall|j: int| 0 <= j < n ==> #[trigger] order.contains(j),
    ensures
        run_outcome_rounds(n, outcomes, order, n).3 == payloads(outcomes, ready_prefix_len(outcomes)),
        run_outcome_rounds(n, outcomes, order, n).2 == (ready_prefix_len(outcomes) < n),
{
    lemma_outcome_rounds_inv(n, outcomes, order, n);
    lemma_ready_prefix_bounds(outcomes);
    let (b, d, e, o) = run_outcome_rounds(n, outcomes, order, n);
    assert(order.subrange(0, n as int) =~= order);
    if !e {
        if d < n {
            assert(order.contains(d as int));
        }
        assert(d == n);
    }
}

} // verus!
