//! Iteration of a `u64` value in five-bit chunks.

use vstd::prelude::*;

verus! {

/// Iterates a `u64` value in five-bit chunks.
///
/// The chunks come least significant first — the reverse of the digit
/// order of [`crate::encoding::spec_digits`] — so they must be reversed
/// before being fed to an encoder that emits the most significant symbol
/// first. Every value yields at least one chunk; after the highest nonzero
/// chunk the iterator is exhausted.
pub struct FiveBitIterator {
    source: Option<u64>,
}

impl FiveBitIterator {
    /// The value still to be chunked, if any.
    pub closed spec fn state(&self) -> Option<u64> {
        self.source
    }

    /// A fresh iterator over all of `source`.
    pub fn new(source: u64) -> (r: FiveBitIterator)
        ensures
            r.state() == Some(source),
    {
        FiveBitIterator { source: Some(source) }
    }

    /// The next five-bit chunk: the low five bits of what remains, with
    /// the rest kept for later calls, or `None` once the value is spent.
    pub fn next(&mut self) -> (r: Option<u8>)
        ensures
            match old(self).state() {
                None => r is None && final(self).state() is None,
                Some(n) => r == Some((n % 32) as u8) && final(self).state() == (if n / 32 == 0 {
                    None::<u64>
                } else {
                    Some(n / 32)
                }),
            },
    {
        match self.source {
            None => None,
            Some(n) => {
                let chunk = (n % 32) as u8;
                self.source = if n / 32 == 0 {
                    None
                } else {
                    Some(n / 32)
                };
                Some(chunk)
            },
        }
    }
}

} // verus!
