//! Encoding of `u64` values as Crockford Base32 text.
//!
//! [`spec_digits`] gives the base-32 digits of a value, most significant
//! first and without leading zeros; [`spec_encode_bytes`] maps them through
//! the symbol table. [`encode_into`] appends exactly those bytes to any
//! [`Write`] sink, and [`encode`] returns them as an owned ASCII string.
//! Encoding is total: every `u64` has a representation of one to thirteen
//! symbols.

use vstd::prelude::*;

use crate::alphabet::digit_value;
use crate::alphabet::is_digit_byte;
use crate::alphabet::is_reserved_byte;
use crate::alphabet::lemma_symbol_roundtrip;
use crate::alphabet::spec_symbol;
use crate::alphabet::symbol_for;
use crate::decoding::ascii_bytes_of;
use crate::decoding::lemma_pow32_13;
use crate::decoding::pow32;
use crate::decoding::tail_value;

verus! {

/// The digits of `n` in base thirty-two, most significant first, with no
/// leading zero digit; zero itself is the single digit `0`.
pub open spec fn spec_digits(n: nat) -> Seq<u8>
    decreases n,
{
    if n < 32 {
        seq![n as u8]
    } else {
        spec_digits(n / 32).push((n % 32) as u8)
    }
}

/// The canonical encoding of `n`: its digits, as symbol-table bytes.
pub open spec fn spec_encode_bytes(n: nat) -> Seq<u8> {
    spec_digits(n).map_values(|d: u8| spec_symbol(d as int))
}

/// Every digit is a five-bit value, and there is at least one.
pub proof fn lemma_digits_bounds(n: nat)
    ensures
        1 <= spec_digits(n).len(),
        forall|j: int| 0 <= j < spec_digits(n).len() ==> spec_digits(n)[j] < 32,
    decreases n,
{
    if n >= 32 {
        lemma_digits_bounds(n / 32);
    }
}

/// A value below `32^k` needs at most `k` digits.
pub proof fn lemma_digits_len(n: nat, k: nat)
    requires
        1 <= k,
        n < pow32(k),
    ensures
        spec_digits(n).len() <= k,
    decreases n,
{
    if n >= 32 {
        assert(pow32(k) == 32 * pow32((k - 1) as nat));
        assert(n / 32 < pow32((k - 1) as nat)) by (nonlinear_arith)
            requires
                n < 32 * pow32((k - 1) as nat),
        ;
        lemma_digits_len(n / 32, (k - 1) as nat);
    }
}

/// A `u64` never needs more than thirteen digits.
pub proof fn lemma_digits_len_u64(n: u64)
    ensures
        spec_digits(n as nat).len() <= 13,
{
    lemma_pow32_13();
    lemma_digits_len(n as nat, 13);
}

/// No leading zero digit: the first digit of a nonzero value is nonzero.
pub proof fn lemma_digits_first(n: nat)
    requires
        n > 0,
    ensures
        spec_digits(n)[0] != 0,
    decreases n,
{
    if n >= 32 {
        lemma_digits_bounds(n / 32);
        lemma_digits_first(n / 32);
    }
}

/// Appending a digit multiplies the accumulated value by the base and adds
/// the digit.
proof fn lemma_tail_value_push_at(s: Seq<u8>, d: u8, i: int)
    requires
        0 <= i <= s.len(),
    ensures
        tail_value(s.push(d), i) == 32 * tail_value(s, i) + digit_value(d),
    decreases s.len() - i,
{
    if i == s.len() {
        assert(s.push(d)[i] == d);
        assert(tail_value(s.push(d), i + 1) == 0);
        assert(tail_value(s, i) == 0);
        assert(pow32((s.push(d).len() - 1 - i) as nat) == 1);
        assert(tail_value(s.push(d), i) == digit_value(d) * 1 + 0);
    } else {
        assert(s.push(d)[i] == s[i]);
        lemma_tail_value_push_at(s, d, i + 1);
        let p = pow32((s.len() - 1 - i) as nat);
        assert(pow32((s.push(d).len() - 1 - i) as nat) == 32 * p);
        assert(digit_value(s[i]) * (32 * p) == 32 * (digit_value(s[i]) * p)) by (nonlinear_arith);
        assert(tail_value(s.push(d), i) == digit_value(s[i]) * (32 * p) + tail_value(
            s.push(d),
            i + 1,
        ));
        assert(tail_value(s, i) == digit_value(s[i]) * p + tail_value(s, i + 1));
    }
}

/// The encoding of `n` evaluates back to `n`: the digits, read through the
/// symbol table with their place values, sum to the encoded value.
pub proof fn lemma_encode_value(n: nat)
    ensures
        tail_value(spec_encode_bytes(n), 0) == n,
    decreases n,
{
    if n < 32 {
        let s = spec_encode_bytes(n);
        assert(s =~= seq![spec_symbol(n as int)]);
        lemma_symbol_roundtrip(n as int);
        assert(tail_value(s, 1) == 0);
        assert(pow32(0) == 1);
        assert(tail_value(s, 0) == digit_value(s[0]) * 1 + tail_value(s, 1));
    } else {
        let hi = spec_encode_bytes(n / 32);
        let last = spec_symbol((n % 32) as int);
        assert(spec_encode_bytes(n) =~= hi.push(last));
        lemma_encode_value(n / 32);
        lemma_tail_value_push_at(hi, last, 0);
        lemma_symbol_roundtrip((n % 32) as int);
    }
}

/// Every byte of an encoding is an accepted, non-reserved ASCII digit.
pub proof fn lemma_encode_bytes_valid(n: nat)
    ensures
        spec_encode_bytes(n).len() == spec_digits(n).len(),
        forall|j: int|
            0 <= j < spec_encode_bytes(n).len() ==> is_digit_byte(#[trigger] spec_encode_bytes(n)[j])
                && !is_reserved_byte(spec_encode_bytes(n)[j]) && spec_encode_bytes(n)[j] < 0x80,
{
    lemma_digits_bounds(n);
    assert forall|j: int| 0 <= j < spec_encode_bytes(n).len() implies is_digit_byte(
        #[trigger] spec_encode_bytes(n)[j],
    ) && !is_reserved_byte(spec_encode_bytes(n)[j]) && spec_encode_bytes(n)[j] < 0x80 by {
        lemma_symbol_roundtrip(spec_digits(n)[j] as int);
    }
}

/// No leading zero emission: a nonzero value's first output byte is not the
/// character `0`.
pub proof fn lemma_no_leading_zero(n: u64)
    requires
        n != 0,
    ensures
        spec_encode_bytes(n as nat).len() >= 1,
        spec_encode_bytes(n as nat)[0] != spec_symbol(0),
{
    lemma_digits_bounds(n as nat);
    lemma_digits_first(n as nat);
    lemma_symbol_roundtrip(spec_digits(n as nat)[0] as int);
    lemma_symbol_roundtrip(0);
}

/// Represents a writable buffer capable of receiving encoded data.
///
/// `Write` is implemented on `Vec<u8>`, on `String`, and on the formatter
/// of [`crate::format`]; implement it on a type of your own to receive the
/// encoder's output directly.
pub trait Write {
    /// The bytes written so far, as the contracts see them.
    spec fn contents(&self) -> Seq<u8>;

    /// How many more bytes may still be written.
    spec fn room(&self) -> int;

    /// Writes a single byte (one encoded symbol) to the output.
    fn write(&mut self, u: u8)
        requires
            old(self).room() >= 1,
        ensures
            final(self).contents() == old(self).contents().push(u),
            final(self).room() >= old(self).room() - 1,
    ;
}

/// Relies on `String::push`, which appends the given character.
#[verifier::external_body]
pub(crate) fn push_char(s: &mut String, c: char)
    ensures
        final(s)@ == old(s)@.push(c),
{
    s.push(c);
}

/// Relies on `String::from_utf8`: bytes below `0x80` are valid UTF-8 and
/// decode to one character per byte, each character being that byte's code
/// point.
#[verifier::external_body]
fn ascii_to_string(bytes: Vec<u8>) -> (r: String)
    requires
        forall|i: int| 0 <= i < bytes@.len() ==> bytes@[i] < 0x80,
    ensures
        r@.len() == bytes@.len(),
        forall|i: int| 0 <= i < r@.len() ==> r@[i] == bytes@[i] as char,
{
    String::from_utf8(bytes).unwrap_or_default()
}

impl Write for String {
    /// The characters already in the string, each truncated to a byte.
    open spec fn contents(&self) -> Seq<u8> {
        self@.map_values(|c: char| c as u8)
    }

    open spec fn room(&self) -> int {
        0x1_0000_0000_0000_0000 - self@.len()
    }

    fn write(&mut self, u: u8) {
        push_char(self, u as char);
        proof {
            assert(self@.map_values(|c: char| c as u8) =~= old(
                self,
            )@.map_values(|c: char| c as u8).push((u as char) as u8));
            assert((u as char) as u8 == u);
        }
    }
}

impl Write for Vec<u8> {
    open spec fn contents(&self) -> Seq<u8> {
        self@
    }

    open spec fn room(&self) -> int {
        0x1_0000_0000_0000_0000 - self@.len()
    }

    fn write(&mut self, u: u8) {
        self.push(u);
    }
}

/// Encodes a `u64` value as Crockford Base32 and appends it to the provided
/// output: the bytes of [`spec_encode_bytes`], most significant symbol
/// first, at most thirteen of them.
pub fn encode_into<T: Write>(n: u64, w: &mut T)
    requires
        old(w).room() >= 13,
    ensures
        final(w).contents() == old(w).contents() + spec_encode_bytes(n as nat),
        final(w).room() >= old(w).room() - spec_encode_bytes(n as nat).len(),
{
    let ghost pre = w.contents();
    let ghost pre_room = w.room();
    if n == 0 {
        w.write(symbol_for(0));
        proof {
            assert(spec_encode_bytes(0) =~= seq![spec_symbol(0)]);
            assert(w.contents() =~= pre + spec_encode_bytes(0));
        }
        return;
    }
    let mut chunks: Vec<u8> = Vec::new();
    let mut m: u64 = n;
    proof {
        assert(Seq::<u8>::empty().reverse() =~= Seq::<u8>::empty());
        assert(spec_digits(n as nat) =~= spec_digits(n as nat) + Seq::<u8>::empty());
    }
    while m >= 32
        invariant
            1 <= m,
            spec_digits(n as nat) == spec_digits(m as nat) + chunks@.reverse(),
            forall|j: int| 0 <= j < chunks@.len() ==> chunks@[j] < 32,
        decreases m,
    {
        let ghost prev = chunks@;
        chunks.push((m % 32) as u8);
        proof {
            assert(chunks@.reverse() =~= seq![(m % 32) as u8] + prev.reverse());
            assert(spec_digits(m as nat) == spec_digits((m / 32) as nat).push((m % 32) as u8));
            assert(spec_digits(n as nat) =~= spec_digits((m / 32) as nat) + chunks@.reverse());
        }
        m = m / 32;
    }
    let ghost prev = chunks@;
    chunks.push(m as u8);
    proof {
        assert(chunks@.reverse() =~= seq![m as u8] + prev.reverse());
        assert(spec_digits(m as nat) =~= seq![m as u8]);
        assert(spec_digits(n as nat) =~= chunks@.reverse());
        lemma_digits_len_u64(n);
        assert(chunks@.len() == spec_digits(n as nat).len());
    }
    let ghost bs = spec_encode_bytes(n as nat);
    let len = chunks.len();
    let mut i: usize = len;
    while i > 0
        invariant
            i <= len,
            len == chunks@.len(),
            chunks@.len() <= 13,
            spec_digits(n as nat) == chunks@.reverse(),
            forall|j: int| 0 <= j < chunks@.len() ==> chunks@[j] < 32,
            bs == spec_encode_bytes(n as nat),
            w.contents() == pre + bs.take(len - i),
            w.room() >= pre_room - (len - i),
            pre_room >= 13,
        decreases i,
    {
        i = i - 1;
        let ghost before = w.contents();
        w.write(symbol_for(chunks[i]));
        proof {
            let c = len - 1 - i;
            assert(spec_digits(n as nat)[c] == chunks@[i as int]);
            assert(bs[c] == spec_symbol(chunks@[i as int] as int));
            assert(w.contents() =~= pre + bs.take(c + 1));
        }
    }
    proof {
        assert(bs.take(len as int) =~= bs);
    }
}

/// Encodes a `u64` value as a Crockford Base32-encoded string: canonical
/// uppercase ASCII, one character for each byte of [`spec_encode_bytes`].
pub fn encode(n: u64) -> (r: String)
    ensures
        r@.len() == spec_encode_bytes(n as nat).len(),
        ascii_bytes_of(r@) == spec_encode_bytes(n as nat),
        vstd::utf8::is_ascii_chars(r@),
{
    let mut fits: Vec<u8> = Vec::new();
    encode_into(n, &mut fits);
    proof {
        lemma_encode_bytes_valid(n as nat);
        assert(fits@ =~= spec_encode_bytes(n as nat));
    }
    let r = ascii_to_string(fits);
    proof {
        assert forall|i: int| 0 <= i < r@.len() implies r@[i] as u8 == spec_encode_bytes(n as nat)[i]
            && r@[i] <= '\u{7f}' by {
            assert(r@[i] == spec_encode_bytes(n as nat)[i] as char);
        }
        assert(ascii_bytes_of(r@) =~= spec_encode_bytes(n as nat));
    }
    r
}

} // verus!
