//! Crockford Base32 encoding and decoding for 64-bit identifiers.
//!
//! The alphabet `0123456789ABCDEFGHJKMNPQRSTVWXYZ` leaves out the easily
//! confused letters `I`, `L`, `O` and `U`. Decoding is case-insensitive,
//! folds `O`/`o` to `0` and `I`/`i`/`L`/`l` to `1`, and rejects the
//! reserved check-digit letter `U`/`u` as unsupported.
//!
//! [`encode`] turns any `u64` into its canonical uppercase text and cannot
//! fail; [`encode_into`] appends the same symbols to any caller-supplied
//! [`Write`] sink. [`decode`] turns text of one to thirteen symbols back
//! into the value and reports each malformed input with a specific
//! [`Error`]. Both directions are pure and stateless, and each carries a
//! contract pinning its result to the shared mathematical model in
//! [`decoding`] and [`encoding`]; the laws relating the two — among them
//! that decoding an encoding always returns the encoded value — are proved
//! there as well.

pub mod alphabet;
pub mod decoding;
pub mod encoding;
pub mod error;
pub mod format;
pub mod iterator;

pub use decoding::decode;
pub use encoding::encode;
pub use encoding::encode_into;
pub use encoding::Write;
pub use error::Error;
