//! Sources of byte items and sinks of processed hints.

use vstd::prelude::*;

verus! {

/// A stream of byte items that can be opened, read item by item and closed.
pub trait StreamRead {
    /// Opens the stream for reading.
    fn open(&mut self) -> Result<(), String>;

    /// The next item, or `None` when the stream is finished.
    fn next(&mut self) -> Result<Option<Vec<u8>>, String>;

    /// Closes the stream.
    fn close(&mut self) -> Result<(), String>;

    /// Whether the stream is open.
    fn is_active(&self) -> bool;
}

/// A stream with no data: it opens and closes without error and every read gives an
/// empty item.
pub struct NullStreamReader;

impl NullStreamReader {
    pub fn new() -> (r: NullStreamReader) {
        NullStreamReader
    }
}

impl StreamRead for NullStreamReader {
    fn open(&mut self) -> (r: Result<(), String>)
        ensures
            r is Ok,
    {
        Ok(())
    }

    fn next(&mut self) -> (r: Result<Option<Vec<u8>>, String>)
        ensures
            r matches Ok(Some(item)) && item@.len() == 0,
    {
        Ok(Some(Vec::new()))
    }

    fn close(&mut self) -> (r: Result<(), String>)
        ensures
            r is Ok,
    {
        Ok(())
    }

    fn is_active(&self) -> (r: bool)
        ensures
            !r,
    {
        false
    }
}

/// A consumer of processed hint data.
pub trait HintsSink {
    /// Hands over a batch of processed hint words.
    fn submit(&self, processed: Vec<u64>) -> Result<(), String>;
}

} // verus!
