//! The decode error taxonomy.

use vstd::prelude::*;

verus! {

/// Represents an error in decoding.
///
/// Every failure of [`crate::decode`] is one of these variants; encoding
/// cannot fail. The byte-carrying variants report the offending input byte
/// and its zero-based index in the input.
#[derive(Debug, PartialEq, Eq, Structural)]
pub enum Error {
    /// The reserved check-digit letter appeared; check digits are
    /// unsupported by design.
    CheckDigitUnsupported { index: usize, value: u8 },
    /// The input had zero length.
    EmptyString,
    /// A byte outside the accepted alphabet (and not an alias or the
    /// reserved letter) appeared.
    InvalidDigit { index: usize, value: u8 },
    /// The input was longer than thirteen bytes, or its numeric value
    /// exceeded sixty-four bits.
    OutOfRange,
}

} // verus!
