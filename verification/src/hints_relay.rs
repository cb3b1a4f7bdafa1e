//! Validation of the hint batches that the coordinator relays to its workers: the batch
//! is only checked for well-formed control codes, then forwarded whole as bytes.

use crate::bytes::le_bytes;
use crate::error::HintError;
use crate::hint_code::{CTRL_END, CTRL_START};
use crate::hint_handlers::words_le_bytes;
use crate::hints_processor::{parse_raw_hint, PrecompileHint, NUM_HINT_TYPES};
use vstd::prelude::*;

verus! {

/// What a relayed batch holds of the stream's control codes.
#[derive(Clone, Copy, Debug, PartialEq, Eq, Structural)]
pub struct RelayBatch {
    /// The batch starts the stream.
    pub has_ctrl_start: bool,
    /// The batch ends the stream.
    pub has_ctrl_end: bool,
}

/// The check of the hints of `s` from position `idx` on, after the hints before it left
/// `has_start` and `has_end`: every hint parses and has a known type, `CTRL_START` only
/// comes first in the first batch, and nothing follows `CTRL_END`.
pub open spec fn relay_scan(s: Seq<u64>, idx: int, first_batch: bool, has_start: bool, has_end: bool) -> Result<
    RelayBatch,
    HintError,
>
    decreases s.len() - idx,
{
    if idx < 0 || idx >= s.len() {
        Ok(RelayBatch { has_ctrl_start: has_start, has_ctrl_end: has_end })
    } else {
        match parse_raw_hint(s, idx) {
            Err(e) => Err(e),
            Ok((t, data)) => if t >= NUM_HINT_TYPES {
                Err(HintError::InvalidHintType(t))
            } else if t == CTRL_START && !first_batch {
                Err(HintError::StartNotInFirstBatch)
            } else if t == CTRL_START && idx != 0 {
                Err(HintError::StartNotFirst { index: idx as usize })
            } else if has_end {
                Err(HintError::HintAfterEnd { hint_type: t, index: idx as usize })
            } else {
                relay_scan(s, idx + data.len() + 1, first_batch, has_start || t == CTRL_START, t == CTRL_END)
            },
        }
    }
}

/// Checks a batch of hints before it is relayed: each hint parses and has a known type,
/// `CTRL_START` comes only as the first hint of the first batch, and no hint follows
/// `CTRL_END`. Says whether the batch starts and whether it ends the stream.
pub fn validate_relay_batch(hints: &[u64], first_batch: bool) -> (r: Result<RelayBatch, HintError>)
    ensures
        r == relay_scan(hints@, 0, first_batch, false, false),
{
    let n = hints.len();
    let mut has_start = false;
    let mut has_end = false;
    let mut idx: usize = 0;
    while idx < n
        invariant
            n == hints@.len(),
            idx <= n,
            relay_scan(hints@, 0, first_batch, false, false) == relay_scan(
                hints@,
                idx as int,
                first_batch,
                has_start,
                has_end,
            ),
        decreases n - idx,
    {
        let hint = match PrecompileHint::from_u64_slice(hints, idx) {
            Ok(h) => h,
            Err(e) => {
                return Err(e);
            },
        };
        let length = hint.data.len();
        let t = hint.hint_type;
        if t >= NUM_HINT_TYPES {
            return Err(HintError::InvalidHintType(t));
        }
        if t == CTRL_START {
            if !first_batch {
                return Err(HintError::StartNotInFirstBatch);
            }
            if idx != 0 {
                return Err(HintError::StartNotFirst { index: idx });
            }
            has_start = true;
        }
        if has_end {
            return Err(HintError::HintAfterEnd { hint_type: t, index: idx });
        }
        has_end = t == CTRL_END;
        idx = idx + length + 1;
    }
    Ok(RelayBatch { has_ctrl_start: has_start, has_ctrl_end: has_end })
}

/// The bytes relayed for a batch: each word in little-endian order.
pub fn hints_payload(hints: &[u64]) -> (r: Vec<u8>)
    ensures
        r@ == le_bytes(hints@),
{
    let r = words_le_bytes(hints, 0, hints.len());
    assert(hints@.subrange(0, hints@.len() as int) =~= hints@);
    r
}


/// The bytes written to shared memory for a batch of processed hints: its length in words,
/// then the words, each in little-endian order.
pub fn framed_hints_payload(processed: &[u64]) -> (r: Vec<u8>)
    ensures
        r@ == le_bytes(seq![processed@.len() as u64] + processed@),
{
    let n = processed.len();
    let mut words: Vec<u64> = Vec::new();
    words.push(n as u64);
    let mut k: usize = 0;
    while k < n
        invariant
            k <= n,
            n == processed@.len(),
            words@ == seq![n as u64] + processed@.subrange(0, k as int),
        decreases n - k,
    {
        words.push(processed[k]);
        proof {
            assert(processed@.subrange(0, k + 1) =~= processed@.subrange(0, k as int).push(processed@[k as int]));
        }
        k = k + 1;
    }
    assert(processed@.subrange(0, n as int) =~= processed@);
    let len = words.len();
    let r = words_le_bytes(words.as_slice(), 0, len);
    assert(words@.subrange(0, len as int) =~= words@);
    r
}

/// What a relayed message carries.
#[derive(Clone, Copy, Debug, PartialEq, Eq, Structural)]
pub enum StreamType {
    /// The start of the stream.
    Start,
    /// A batch of hints.
    Data,
    /// The end of the stream.
    End,
}

/// The messages that relay a checked batch, in the order they are sent: a start message
/// when the batch starts the stream, the batch itself, and an end message when the batch
/// ends the stream.
pub open spec fn relay_send_order(b: RelayBatch) -> Seq<StreamType> {
    (if b.has_ctrl_start {
        seq![StreamType::Start]
    } else {
        Seq::empty()
    }) + seq![StreamType::Data] + (if b.has_ctrl_end {
        seq![StreamType::End]
    } else {
        Seq::empty()
    })
}

/// The messages that relay the checked batch `b`, in order (see [`relay_send_order`]).
pub fn relay_sends(b: &RelayBatch) -> (r: Vec<StreamType>)
    ensures
        r@ == relay_send_order(*b),
{
    let mut r: Vec<StreamType> = Vec::new();
    if b.has_ctrl_start {
        r.push(StreamType::Start);
    }
    r.push(StreamType::Data);
    if b.has_ctrl_end {
        r.push(StreamType::End);
    }
    proof {
        assert(r@ =~= relay_send_order(*b));
    }
    r
}

} // verus!
