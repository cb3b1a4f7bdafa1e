//! The decisions of the loop that feeds a processor from a stream: which batch is the
//! first one, what to do with each item read, and when to stop.

use crate::bytes::{le_bytes, words_from_le_bytes};
use vstd::prelude::*;

verus! {

/// What to do with an item read from the stream.
pub enum StreamAction {
    /// Hand these hints to the processor; the flag tells whether they are the first batch.
    Process(Vec<u64>, bool),
    /// The stream is finished.
    Stop,
    /// The item is not a whole number of 64-bit words.
    Malformed,
}

/// Where the reading of a stream stands.
pub struct StreamPosition {
    first_batch: bool,
    ended: bool,
}

impl StreamPosition {
    /// Whether the next batch is the first one of the stream.
    pub closed spec fn spec_first_batch(&self) -> bool {
        self.first_batch
    }

    /// Whether a batch ended the stream with an end code.
    pub closed spec fn spec_ended(&self) -> bool {
        self.ended
    }

    /// The start of a stream: the next batch is the first one.
    pub fn new() -> (p: StreamPosition)
        ensures
            p.spec_first_batch(),
            !p.spec_ended(),
    {
        StreamPosition { first_batch: true, ended: false }
    }

    /// What to do with `read`, the item the stream gave (`None` when it is finished): stop,
    /// refuse an item that is not made of whole words, or hand its words to the processor,
    /// marked as the first batch while no batch was processed.
    pub fn on_read(&self, read: Option<Vec<u8>>) -> (a: StreamAction)
        ensures
            match read {
                None => a is Stop,
                Some(bytes) => if bytes@.len() % 8 != 0 {
                    a is Malformed
                } else {
                    a matches StreamAction::Process(words, first) && le_bytes(words@) == bytes@ && first
                        == self.spec_first_batch()
                },
            },
    {
        match read {
            None => StreamAction::Stop,
            Some(bytes) => match words_from_le_bytes(bytes.as_slice()) {
                Some(words) => StreamAction::Process(words, self.first_batch),
                None => StreamAction::Malformed,
            },
        }
    }

    /// Records that a batch was processed, `has_ctrl_end` telling whether it ended the
    /// stream; returns whether the reading stops. No later batch is the first one.
    pub fn on_processed(&mut self, has_ctrl_end: bool) -> (stop: bool)
        ensures
            !final(self).spec_first_batch(),
            final(self).spec_ended() == has_ctrl_end,
            stop == has_ctrl_end,
    {
        self.first_batch = false;
        self.ended = has_ctrl_end;
        has_ctrl_end
    }
}

} // verus!
