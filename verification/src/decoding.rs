//! Decoding of Crockford Base32 text into `u64` values.
//!
//! [`spec_decode`] is the mathematical model of the decoder over the raw
//! input bytes: empty input and input longer than thirteen bytes are
//! rejected outright; otherwise the bytes are classified and accumulated
//! left to right, most significant first, and the first offending byte (or
//! the first partial sum that no longer fits in sixty-four bits) decides
//! the error. [`decode`] is the executable decoder, proved equal to the
//! model on every input string.

use vstd::prelude::*;

use crate::alphabet::digit_value;
use crate::alphabet::is_digit_byte;
use crate::alphabet::is_reserved_byte;
use crate::alphabet::lemma_fold_preserves_class;
use crate::alphabet::spec_lower;
use crate::alphabet::spec_upper;
use crate::error::Error;

verus! {

/// Thirty-two to the power `k`: the place value of a digit with `k`
/// positions to its right.
pub open spec fn pow32(k: nat) -> nat
    decreases k,
{
    if k == 0 {
        1
    } else {
        32 * pow32((k - 1) as nat)
    }
}

/// The decoder's accumulation, beginning at index `i` with the partial
/// value `n` already accumulated from the bytes before `i`.
///
/// Each step classifies the byte at `i`, then adds its place-value
/// contribution `digit_value * 32^(len - 1 - i)`; a partial sum beyond
/// `u64::MAX` stops the run with `OutOfRange`, exactly as the checked
/// arithmetic of the executable decoder does.
pub open spec fn spec_decode_at(s: Seq<u8>, i: int, n: u64) -> Result<u64, Error>
    decreases s.len() - i,
{
    if i < 0 || i >= s.len() {
        Ok(n)
    } else if is_digit_byte(s[i]) {
        let m = n + digit_value(s[i]) * pow32((s.len() - 1 - i) as nat);
        if m > u64::MAX {
            Err(Error::OutOfRange)
        } else {
            spec_decode_at(s, i + 1, m as u64)
        }
    } else if is_reserved_byte(s[i]) {
        Err(Error::CheckDigitUnsupported { index: i as usize, value: s[i] })
    } else {
        Err(Error::InvalidDigit { index: i as usize, value: s[i] })
    }
}

/// What decoding a byte string returns: the complete model of [`decode`].
pub open spec fn spec_decode(s: Seq<u8>) -> Result<u64, Error> {
    if s.len() == 0 {
        Err(Error::EmptyString)
    } else if s.len() > 13 {
        Err(Error::OutOfRange)
    } else {
        spec_decode_at(s, 0, 0)
    }
}

/// The bytes of an ASCII character sequence: one byte per character.
pub open spec fn ascii_bytes_of(s: Seq<char>) -> Seq<u8> {
    Seq::new(s.len(), |i: int| s[i] as u8)
}

/// The value still to be accumulated from index `i` on, when every
/// remaining byte is an accepted digit: the sum of
/// `digit_value(s[j]) * 32^(len - 1 - j)` over `j >= i`.
pub open spec fn tail_value(s: Seq<u8>, i: int) -> int
    decreases s.len() - i,
{
    if i < 0 || i >= s.len() {
        0
    } else {
        digit_value(s[i]) * pow32((s.len() - 1 - i) as nat) + tail_value(s, i + 1)
    }
}

/// `pow32` grows with its exponent.
pub proof fn lemma_pow32_monotonic(a: nat, b: nat)
    requires
        a <= b,
    ensures
        pow32(a) <= pow32(b),
    decreases b,
{
    if a < b {
        lemma_pow32_monotonic(a, (b - 1) as nat);
    }
}

/// The largest place value a thirteen-digit input can use.
pub proof fn lemma_pow32_12()
    ensures
        pow32(12) == 0x1000_0000_0000_0000,
{
    reveal_with_fuel(pow32, 13);
}

/// Thirteen digits can name every `u64`, and a fourteenth cannot be needed:
/// `32^13` exceeds `u64::MAX`.
pub proof fn lemma_pow32_13()
    ensures
        pow32(13) == 0x2_0000_0000_0000_0000,
{
    reveal_with_fuel(pow32, 14);
}

proof fn lemma_tail_value_nonneg(s: Seq<u8>, i: int)
    ensures
        tail_value(s, i) >= 0,
    decreases s.len() - i,
{
    if 0 <= i < s.len() {
        assert(digit_value(s[i]) * pow32((s.len() - 1 - i) as nat) >= 0) by (nonlinear_arith);
        lemma_tail_value_nonneg(s, i + 1);
    }
}

/// On a run of accepted digits the accumulation is the plain sum: it
/// returns `Ok` of `n` plus the tail's value when that fits in sixty-four
/// bits, and `OutOfRange` when it does not.
pub proof fn lemma_decode_at_all_valid(s: Seq<u8>, i: int, n: u64)
    requires
        0 <= i <= s.len(),
        forall|j: int| i <= j < s.len() ==> is_digit_byte(s[j]),
    ensures
        spec_decode_at(s, i, n) == if n + tail_value(s, i) <= u64::MAX {
            Ok::<u64, Error>((n + tail_value(s, i)) as u64)
        } else {
            Err::<u64, Error>(Error::OutOfRange)
        },
    decreases s.len() - i,
{
    lemma_tail_value_nonneg(s, i);
    if i < s.len() {
        let m = n + digit_value(s[i]) * pow32((s.len() - 1 - i) as nat);
        assert(digit_value(s[i]) * pow32((s.len() - 1 - i) as nat) >= 0) by (nonlinear_arith);
        lemma_tail_value_nonneg(s, i + 1);
        if m <= u64::MAX {
            lemma_decode_at_all_valid(s, i + 1, m as u64);
        }
    }
}

/// A successful accumulation saw nothing but accepted digits.
pub proof fn lemma_decode_at_ok_valid(s: Seq<u8>, i: int, n: u64)
    requires
        0 <= i,
        spec_decode_at(s, i, n) is Ok,
    ensures
        forall|j: int| i <= j < s.len() ==> is_digit_byte(s[j]),
    decreases s.len() - i,
{
    if 0 <= i < s.len() {
        let m = n + digit_value(s[i]) * pow32((s.len() - 1 - i) as nat);
        if is_digit_byte(s[i]) && m <= u64::MAX {
            lemma_decode_at_ok_valid(s, i + 1, m as u64);
        }
    }
}

/// Two inputs whose remaining bytes are accepted digits with equal values
/// accumulate identically.
proof fn lemma_decode_at_same_values(s: Seq<u8>, t: Seq<u8>, i: int, n: u64)
    requires
        s.len() == t.len(),
        forall|j: int| i <= j < s.len() ==> is_digit_byte(s[j]),
        forall|j: int| i <= j < t.len() ==> is_digit_byte(t[j]),
        forall|j: int| i <= j < s.len() ==> digit_value(t[j]) == digit_value(s[j]),
    ensures
        spec_decode_at(t, i, n) == spec_decode_at(s, i, n),
    decreases s.len() - i,
{
    if 0 <= i < s.len() {
        let m = n + digit_value(s[i]) * pow32((s.len() - 1 - i) as nat);
        if m <= u64::MAX {
            lemma_decode_at_same_values(s, t, i + 1, m as u64);
        }
    }
}

/// Case insensitivity: whenever decoding succeeds, folding the whole input
/// to uppercase or to lowercase decodes to the very same value.
pub proof fn lemma_case_insensitive(s: Seq<u8>)
    requires
        spec_decode(s) is Ok,
    ensures
        spec_decode(s.map_values(|b: u8| spec_upper(b))) == spec_decode(s),
        spec_decode(s.map_values(|b: u8| spec_lower(b))) == spec_decode(s),
{
    let up = s.map_values(|b: u8| spec_upper(b));
    let low = s.map_values(|b: u8| spec_lower(b));
    lemma_decode_at_ok_valid(s, 0, 0);
    assert forall|j: int| 0 <= j < s.len() implies is_digit_byte(up[j]) && is_digit_byte(low[j])
        && digit_value(up[j]) == digit_value(s[j]) && digit_value(low[j]) == digit_value(
        s[j],
    ) by {
        lemma_fold_preserves_class(s[j]);
    }
    lemma_decode_at_same_values(s, up, 0, 0);
    lemma_decode_at_same_values(s, low, 0, 0);
}

/// Length rejection: empty input fails with `EmptyString`, and input of
/// fourteen or more bytes fails with `OutOfRange`, whatever the bytes are.
pub proof fn lemma_length_rejection(s: Seq<u8>)
    ensures
        s.len() == 0 ==> spec_decode(s) == Err::<u64, Error>(Error::EmptyString),
        s.len() > 13 ==> spec_decode(s) == Err::<u64, Error>(Error::OutOfRange),
{
}

/// Overflow rejection: an input of accepted digits whose numeric value
/// exceeds `u64::MAX` fails with `OutOfRange` rather than wrapping.
pub proof fn lemma_overflow_rejected(s: Seq<u8>)
    requires
        1 <= s.len() <= 13,
        forall|j: int| 0 <= j < s.len() ==> is_digit_byte(s[j]),
        tail_value(s, 0) > u64::MAX,
    ensures
        spec_decode(s) == Err::<u64, Error>(Error::OutOfRange),
{
    lemma_decode_at_all_valid(s, 0, 0);
}

/// Round trip: decoding the encoding of any `u64` yields exactly that
/// value.
pub proof fn lemma_round_trip(n: u64)
    ensures
        spec_decode(crate::encoding::spec_encode_bytes(n as nat)) == Ok::<u64, Error>(n),
{
    let bs = crate::encoding::spec_encode_bytes(n as nat);
    crate::encoding::lemma_encode_bytes_valid(n as nat);
    crate::encoding::lemma_digits_bounds(n as nat);
    crate::encoding::lemma_digits_len_u64(n);
    crate::encoding::lemma_encode_value(n as nat);
    lemma_decode_at_all_valid(bs, 0, 0);
}

/// Round trip through text: an ASCII string whose bytes are the encoding
/// of `n` decodes to `n`. This is the string-level form of
/// [`lemma_round_trip`], matching the contracts of
/// [`crate::encoding::encode`] and [`decode`].
pub proof fn lemma_round_trip_str(n: u64, s: Seq<char>)
    requires
        vstd::utf8::is_ascii_chars(s),
        ascii_bytes_of(s) == crate::encoding::spec_encode_bytes(n as nat),
    ensures
        spec_decode(vstd::utf8::encode_utf8(s)) == Ok::<u64, Error>(n),
{
    vstd::utf8::is_ascii_chars_encode_utf8(s);
    assert(vstd::utf8::encode_utf8(s) =~= ascii_bytes_of(s));
    lemma_round_trip(n);
}

/// The place value `32^k`, computed executably.
fn place_value(k: usize) -> (r: u64)
    requires
        k <= 12,
    ensures
        r == pow32(k as nat),
{
    let mut p: u64 = 1;
    let mut i: usize = 0;
    while i < k
        invariant
            i <= k <= 12,
            p == pow32(i as nat),
        decreases k - i,
    {
        proof {
            assert(pow32((i + 1) as nat) == 32 * pow32(i as nat));
            lemma_pow32_monotonic((i + 1) as nat, 12);
            lemma_pow32_12();
        }
        p = p * 32;
        i = i + 1;
    }
    p
}

/// Attempts to convert an input byte to its normalized five-bit value,
/// classifying it exactly as the symbol table does.
fn to_normal_digit(idx: usize, u: u8) -> (r: Result<u8, Error>)
    ensures
        is_digit_byte(u) ==> r == Ok::<u8, Error>(digit_value(u)),
        is_reserved_byte(u) ==> r == Err::<u8, Error>(
            Error::CheckDigitUnsupported { index: idx, value: u },
        ),
        !is_digit_byte(u) && !is_reserved_byte(u) ==> r == Err::<u8, Error>(
            Error::InvalidDigit { index: idx, value: u },
        ),
{
    let f = if ('a' as u8) <= u && u <= ('z' as u8) {
        u - 32
    } else {
        u
    };
    if ('0' as u8) <= f && f <= ('9' as u8) {
        Ok(f - ('0' as u8))
    } else if f == ('O' as u8) {
        Ok(0)
    } else if f == ('I' as u8) || f == ('L' as u8) {
        Ok(1)
    } else if ('A' as u8) <= f && f <= ('H' as u8) {
        Ok(f - ('A' as u8) + 10)
    } else if f == ('J' as u8) || f == ('K' as u8) {
        Ok(f - ('J' as u8) + 18)
    } else if f == ('M' as u8) || f == ('N' as u8) {
        Ok(f - ('M' as u8) + 20)
    } else if ('P' as u8) <= f && f <= ('T' as u8) {
        Ok(f - ('P' as u8) + 22)
    } else if ('V' as u8) <= f && f <= ('Z' as u8) {
        Ok(f - ('V' as u8) + 27)
    } else if f == ('U' as u8) {
        Err(Error::CheckDigitUnsupported { index: idx, value: u })
    } else {
        Err(Error::InvalidDigit { index: idx, value: u })
    }
}

/// Accumulates the value of a length-checked run of input bytes, most
/// significant digit first, with every step guarded against overflow.
fn decode_str(input: &[u8]) -> (r: Result<u64, Error>)
    requires
        1 <= input@.len() <= 13,
    ensures
        r == spec_decode_at(input@, 0, 0),
{
    let mut place: u64 = place_value(input.len() - 1);
    let mut n: u64 = 0;
    let mut idx: usize = 0;
    while idx < input.len()
        invariant
            idx <= input@.len(),
            1 <= input@.len() <= 13,
            idx < input@.len() ==> place == pow32((input@.len() - 1 - idx) as nat),
            spec_decode_at(input@, 0, 0) == spec_decode_at(input@, idx as int, n),
        decreases input@.len() - idx,
    {
        let u = input[idx];
        match to_normal_digit(idx, u) {
            Err(e) => {
                return Err(e);
            },
            Ok(digit) => {
                proof {
                    lemma_pow32_12();
                    lemma_pow32_monotonic((input@.len() - 1 - idx) as nat, 12);
                    assert((digit as int) * (place as int) <= 31 * 0x1000_0000_0000_0000)
                        by (nonlinear_arith)
                        requires
                            digit < 32,
                            place <= 0x1000_0000_0000_0000,
                    ;
                }
                let wide: u128 = (digit as u128) * (place as u128) + (n as u128);
                if wide > (u64::MAX as u128) {
                    return Err(Error::OutOfRange);
                }
                proof {
                    if idx + 1 < input@.len() {
                        let k = (input@.len() - 1 - idx) as nat;
                        assert(place == 32 * pow32((k - 1) as nat));
                        assert((32 * pow32((k - 1) as nat)) / 32 == pow32((k - 1) as nat))
                            by (nonlinear_arith);
                    }
                }
                n = wide as u64;
                place = place / 32;
                idx = idx + 1;
            },
        }
    }
    Ok(n)
}

/// Attempts to decode a Crockford Base32-encoded string into a `u64` value.
///
/// The input is read byte by byte: one to thirteen bytes, each a canonical
/// symbol or an accepted alias in either case. The result, success or the
/// exact error, is [`spec_decode`] of the string's bytes.
pub fn decode(input: &str) -> (r: Result<u64, Error>)
    ensures
        r == spec_decode(vstd::utf8::encode_utf8(input@)),
        vstd::utf8::is_ascii_chars(input@) ==> r == spec_decode(ascii_bytes_of(input@)),
{
    proof {
        if vstd::utf8::is_ascii_chars(input@) {
            vstd::utf8::is_ascii_chars_encode_utf8(input@);
            assert(vstd::utf8::encode_utf8(input@) =~= ascii_bytes_of(input@));
        }
    }
    let bytes = input.as_bytes();
    let len = bytes.len();
    if len == 0 {
        Err(Error::EmptyString)
    } else if len > 13 {
        Err(Error::OutOfRange)
    } else {
        decode_str(bytes)
    }
}

} // verus!

