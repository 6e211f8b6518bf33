use vstd::prelude::*;

verus! {

/// Saturating addition of byte counts: the total sticks at `u64::MAX`
/// instead of wrapping.
pub open spec fn sat_add(a: nat, b: nat) -> nat {
    if a + b > u64::MAX {
        u64::MAX as nat
    } else {
        a + b
    }
}

/// A byte count. Adding to it saturates at `u64::MAX`.
#[derive(Clone, Copy, Debug, PartialEq, Eq, Structural)]
pub struct FileSize {
    pub bytes: u64,
}

impl FileSize {
    pub fn new(bytes: u64) -> (r: FileSize)
        ensures
            r.bytes == bytes,
    {
        FileSize { bytes }
    }

    /// Adds `other` to this count, saturating at `u64::MAX`.
    pub fn add(&mut self, other: FileSize)
        ensures
            final(self).bytes == sat_add(old(self).bytes as nat, other.bytes as nat),
    {
        self.bytes = self.bytes.saturating_add(other.bytes);
    }

    /// Whether this count is at least `other`.
    pub fn at_least(&self, other: FileSize) -> (r: bool)
        ensures
            r == (self.bytes >= other.bytes),
    {
        self.bytes >= other.bytes
    }
}

} // verus!
