//! A pass-through hasher state for 64-bit keys that are already good
//! hashes: it simply remembers the last value written, so a hash table
//! keyed by Zobrist digests does not hash them a second time.

use vstd::prelude::*;

verus! {

/// Holds the last 64-bit value written.
#[derive(Clone, Copy, Debug)]
pub struct NopHasher {
    /// The value the next `finish` will report.
    pub hash: u64,
}

impl Default for NopHasher {
    /// A fresh hasher reports zero.
    fn default() -> (r: Self)
        ensures
            r.hash == 0,
    {
        NopHasher { hash: 0 }
    }
}

impl NopHasher {
    /// Stores `n` as the hash value.
    pub fn write_u64(&mut self, n: u64)
        ensures
            final(self).hash == n,
    {
        self.hash = n;
    }

    /// Reports the stored hash value.
    pub fn finish(&self) -> (r: u64)
        ensures
            r == self.hash,
    {
        self.hash
    }
}

} // verus!
