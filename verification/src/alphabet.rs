//! The Crockford Base32 symbol table.
//!
//! A single source of truth shared by the encoder and the decoder: the
//! ordered 32-entry alphabet `0123456789ABCDEFGHJKMNPQRSTVWXYZ` that maps a
//! symbol value in `0..32` to its canonical output byte, and the inverse
//! classification of input bytes. The inverse is case-insensitive and folds
//! the aliases `O`/`o` to `0` and `I`/`i`/`L`/`l` to `1`; the check-digit
//! letter `U`/`u` is reserved, and every other byte is invalid.

use vstd::prelude::*;

verus! {

/// ASCII uppercase fold: a lowercase letter maps to its uppercase form,
/// every other byte is unchanged.
pub open spec fn spec_upper(b: u8) -> u8 {
    if ('a' as u8) <= b <= ('z' as u8) {
        (b - 32) as u8
    } else {
        b
    }
}

/// ASCII lowercase fold: an uppercase letter maps to its lowercase form,
/// every other byte is unchanged.
pub open spec fn spec_lower(b: u8) -> u8 {
    if ('A' as u8) <= b <= ('Z' as u8) {
        (b + 32) as u8
    } else {
        b
    }
}

/// The canonical output byte for a symbol value in `0..32`.
///
/// The alphabet skips the letters `I`, `L`, `O` and `U`.
pub open spec fn spec_symbol(v: int) -> u8 {
    if 0 <= v < 10 {
        (('0' as u8) + v) as u8
    } else if v < 18 {
        (('A' as u8) + (v - 10)) as u8
    } else if v < 20 {
        (('J' as u8) + (v - 18)) as u8
    } else if v < 22 {
        (('M' as u8) + (v - 20)) as u8
    } else if v < 27 {
        (('P' as u8) + (v - 22)) as u8
    } else if v < 32 {
        (('V' as u8) + (v - 27)) as u8
    } else {
        0
    }
}

/// Whether a byte is accepted as a digit on decode: a canonical symbol or
/// one of the aliases, in either case.
pub open spec fn is_digit_byte(b: u8) -> bool {
    let u = spec_upper(b);
    (('0' as u8) <= u <= ('9' as u8)) || (('A' as u8) <= u <= ('Z' as u8) && u != ('U' as u8))
}

/// Whether a byte is the reserved check-digit letter, in either case.
pub open spec fn is_reserved_byte(b: u8) -> bool {
    spec_upper(b) == ('U' as u8)
}

/// The symbol value of an accepted digit byte, with the alias folds
/// `O -> 0` and `I`/`L -> 1`.
pub open spec fn digit_value(b: u8) -> u8
    recommends
        is_digit_byte(b),
{
    let u = spec_upper(b);
    if ('0' as u8) <= u <= ('9' as u8) {
        (u - ('0' as u8)) as u8
    } else if u == ('O' as u8) {
        0
    } else if u == ('I' as u8) || u == ('L' as u8) {
        1
    } else if ('A' as u8) <= u <= ('H' as u8) {
        (u - ('A' as u8) + 10) as u8
    } else if u == ('J' as u8) || u == ('K' as u8) {
        (u - ('J' as u8) + 18) as u8
    } else if u == ('M' as u8) || u == ('N' as u8) {
        (u - ('M' as u8) + 20) as u8
    } else if ('P' as u8) <= u <= ('T' as u8) {
        (u - ('P' as u8) + 22) as u8
    } else if ('V' as u8) <= u <= ('Z' as u8) {
        (u - ('V' as u8) + 27) as u8
    } else {
        0
    }
}

/// The canonical character for a symbol value, as a byte.
pub fn symbol_for(v: u8) -> (r: u8)
    requires
        v < 32,
    ensures
        r == spec_symbol(v as int),
{
    if v < 10 {
        ('0' as u8) + v
    } else if v < 18 {
        ('A' as u8) + (v - 10)
    } else if v < 20 {
        ('J' as u8) + (v - 18)
    } else if v < 22 {
        ('M' as u8) + (v - 20)
    } else if v < 27 {
        ('P' as u8) + (v - 22)
    } else {
        ('V' as u8) + (v - 27)
    }
}

/// The table and its inverse agree: each canonical symbol is an accepted
/// digit, is not the reserved letter, is ASCII, and decodes back to its
/// own value.
pub proof fn lemma_symbol_roundtrip(v: int)
    requires
        0 <= v < 32,
    ensures
        is_digit_byte(spec_symbol(v)),
        !is_reserved_byte(spec_symbol(v)),
        digit_value(spec_symbol(v)) == v,
        spec_symbol(v) < 0x80,
{
}

/// Folding a digit byte to either case preserves its acceptance and its
/// value; the reserved letter stays reserved and an invalid byte stays
/// invalid.
pub proof fn lemma_fold_preserves_class(b: u8)
    ensures
        is_digit_byte(spec_upper(b)) == is_digit_byte(b),
        is_digit_byte(spec_lower(b)) == is_digit_byte(b),
        is_reserved_byte(spec_upper(b)) == is_reserved_byte(b),
        is_reserved_byte(spec_lower(b)) == is_reserved_byte(b),
        is_digit_byte(b) ==> digit_value(spec_upper(b)) == digit_value(b),
        is_digit_byte(b) ==> digit_value(spec_lower(b)) == digit_value(b),
{
}

} // verus!
