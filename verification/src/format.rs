//! Encoding with formatting options.
//!
//! An [`Encoder`] carries a letter-case transform chosen at construction:
//! lowercase by default, or the [`Case`] handed to [`Encoder::with_case`].
//! Encoding with it fills a [`Formatter`], a bounded sink for the thirteen
//! symbols at most that a `u64` needs; [`Formatter::render`] realizes the
//! text with the encoder's transform applied.

use vstd::prelude::*;

use crate::alphabet::spec_lower;
use crate::alphabet::spec_upper;
use crate::encoding::encode_into;
use crate::encoding::push_char;
use crate::encoding::spec_encode_bytes;
use crate::encoding::Write;

verus! {

/// A letter case for encoded output.
#[derive(Copy, Clone, Debug)]
pub enum Case {
    Upper,
    Lower,
}

/// The byte transform an [`Encoder`] applies when its output is rendered.
#[derive(Copy, Clone, Debug)]
enum Transform {
    Upper,
    Lower,
}

/// An encoder with formatting options.
///
/// Values encoded using an instance of `Encoder` will be formatted with
/// respect to the options provided, e.g. capitalization.
#[derive(Copy, Clone, Debug)]
pub struct Encoder {
    transform: Transform,
}

impl Encoder {
    /// What this encoder does to each output byte when rendering.
    pub closed spec fn spec_transform(self, b: u8) -> u8 {
        match self.transform {
            Transform::Upper => spec_upper(b),
            Transform::Lower => spec_lower(b),
        }
    }

    /// An encoder with the default formatting: lowercase output.
    pub fn new() -> (r: Self)
        ensures
            forall|b: u8| #[trigger] r.spec_transform(b) == spec_lower(b),
    {
        Self { transform: Transform::Lower }
    }

    /// An encoder that folds its output to the given case.
    pub fn with_case(case: Case) -> (r: Self)
        ensures
            case is Upper ==> forall|b: u8| #[trigger] r.spec_transform(b) == spec_upper(b),
            case is Lower ==> forall|b: u8| #[trigger] r.spec_transform(b) == spec_lower(b),
    {
        let transform = match case {
            Case::Upper => Transform::Upper,
            Case::Lower => Transform::Lower,
        };
        Self { transform }
    }

    /// Encodes `n` into a fresh [`Formatter`] holding this encoder's
    /// options and the canonical symbol bytes of `n`.
    pub fn encode(&self, n: u64) -> (f: Formatter)
        ensures
            f.encoder() == *self,
            f.buffered() == spec_encode_bytes(n as nat),
    {
        let mut data: Vec<u8> = Vec::new();
        encode_into(n, &mut data);
        Formatter { encoder: *self, data }
    }

    fn apply(&self, u: u8) -> (r: u8)
        ensures
            r == self.spec_transform(u),
    {
        match self.transform {
            Transform::Upper => {
                if ('a' as u8) <= u && u <= ('z' as u8) {
                    u - 32
                } else {
                    u
                }
            },
            Transform::Lower => {
                if ('A' as u8) <= u && u <= ('Z' as u8) {
                    u + 32
                } else {
                    u
                }
            },
        }
    }
}

impl Default for Encoder {
    /// The same encoder as [`Encoder::new`].
    fn default() -> (r: Self)
        ensures
            forall|b: u8| #[trigger] r.spec_transform(b) == spec_lower(b),
    {
        Self::new()
    }
}

/// A bounded sink for one encoded value: up to thirteen symbol bytes and
/// the [`Encoder`] whose options will format them.
pub struct Formatter {
    encoder: Encoder,
    data: Vec<u8>,
}

impl Formatter {
    /// The raw symbol bytes received so far, before any transform.
    pub closed spec fn buffered(&self) -> Seq<u8> {
        self.data@
    }

    /// The encoder whose options this formatter renders with.
    pub closed spec fn encoder(&self) -> Encoder {
        self.encoder
    }

    /// The text this formatter renders: its bytes, each put through the
    /// encoder's transform and taken as a character.
    pub open spec fn rendered(&self) -> Seq<char> {
        Seq::new(self.buffered().len(), |i: int| self.encoder().spec_transform(self.buffered()[i]) as char)
    }

    /// An empty formatter rendering with the given encoder's options.
    pub fn new(encoder: &Encoder) -> (r: Self)
        ensures
            r.encoder() == *encoder,
            r.buffered() == Seq::<u8>::empty(),
    {
        Formatter { encoder: *encoder, data: Vec::new() }
    }

    /// Realizes the received symbols as text, applying the encoder's
    /// transform to each byte.
    pub fn render(&self) -> (r: String)
        ensures
            r@ == self.rendered(),
    {
        let mut s = String::new();
        let mut idx: usize = 0;
        while idx < self.data.len()
            invariant
                idx <= self.data@.len(),
                s@ =~= self.rendered().take(idx as int),
            decreases self.data@.len() - idx,
        {
            let b = self.encoder.apply(self.data[idx]);
            push_char(&mut s, b as char);
            proof {
                assert(s@ =~= self.rendered().take(idx + 1));
            }
            idx = idx + 1;
        }
        proof {
            assert(self.rendered().take(self.data@.len() as int) =~= self.rendered());
        }
        s
    }
}

impl Write for Formatter {
    /// The raw bytes written, before the rendering transform.
    closed spec fn contents(&self) -> Seq<u8> {
        self.data@
    }

    /// The formatter holds at most thirteen bytes: exactly one encoded
    /// `u64`.
    closed spec fn room(&self) -> int {
        13 - self.data@.len()
    }

    fn write(&mut self, u: u8) {
        self.data.push(u);
    }
}

} // verus!
