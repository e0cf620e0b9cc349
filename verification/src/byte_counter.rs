//! A counting byte sink: it measures how many bytes a write stream would
//! occupy without keeping them.

use vstd::prelude::*;

verus! {

/// A sink that counts the bytes handed to it and stores nothing.
pub struct ByteCounter {
    count: usize,
}

impl ByteCounter {
    /// The number of bytes counted so far.
    pub closed spec fn spec_count(self) -> usize {
        self.count
    }

    /// Starts a counter at zero.
    pub fn new() -> (r: Self)
        ensures
            r.spec_count() == 0,
    {
        ByteCounter { count: 0 }
    }

    /// Returns how many bytes were handed to this sink.
    pub fn bytes_written(&self) -> (r: usize)
        ensures
            r == self.spec_count(),
    {
        self.count
    }

    /// Counts a buffer, saturating at `usize::MAX`; returns how many of its
    /// bytes were counted.
    pub fn write(&mut self, buf: &[u8]) -> (r: usize)
        ensures
            r == buf@.len(),
            final(self).spec_count() == if old(self).spec_count() + buf@.len() <= usize::MAX {
                (old(self).spec_count() + buf@.len()) as usize
            } else {
                usize::MAX
            },
    {
        if buf.len() <= usize::MAX - self.count {
            self.count = self.count + buf.len();
        } else {
            self.count = usize::MAX;
        }
        buf.len()
    }

    /// A counting sink holds nothing back; flushing does nothing.
    pub fn flush(&mut self)
        ensures
            final(self).spec_count() == old(self).spec_count(),
    {
    }
}

} // verus!
