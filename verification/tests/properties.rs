use crockford::decode;
use crockford::encode;
use crockford::encode_into;
use crockford::Error;

#[test]
fn round_trip_boundary_values() {
    let samples: [u64; 9] = [
        0,
        1,
        15,
        16,
        31,
        32,
        (1 << 60) - 1,
        1 << 60,
        u64::MAX,
    ];
    for &n in samples.iter() {
        assert_eq!(Ok(n), decode(&encode(n)));
    }
}

#[test]
fn round_trip_sampled_values() {
    let mut x: u64 = 0x243f_6a88_85a3_08d3;
    for _ in 0..1000 {
        x = x
            .wrapping_mul(6364136223846793005)
            .wrapping_add(1442695040888963407);
        assert_eq!(Ok(x), decode(&encode(x)));
    }
}

#[test]
fn canonical_zero() {
    assert_eq!("0", &*encode(0));
}

#[test]
fn max_length_boundary() {
    let text = encode(u64::MAX);
    assert_eq!("FZZZZZZZZZZZZ", &*text);
    assert_eq!(13, text.len());
    assert_eq!(Ok(u64::MAX), decode("FZZZZZZZZZZZZ"));
}

#[test]
fn case_insensitive_decoding() {
    let upper = "FZZZZZZZZZZZZ";
    let lower = "fzzzzzzzzzzzz";
    let mixed = "fZzZzZzZzZzZz";
    assert_eq!(decode(upper), decode(lower));
    assert_eq!(decode(upper), decode(mixed));
    assert_eq!(decode("4ZQ"), decode("4zq"));
}

#[test]
fn alias_folding() {
    assert_eq!(decode("101"), decode("IOL"));
    assert_eq!(decode("101"), decode("iol"));
    assert_eq!(Ok(0), decode("O"));
    assert_eq!(Ok(1), decode("I"));
    assert_eq!(Ok(1), decode("L"));
}

#[test]
fn empty_and_overlong_inputs_rejected() {
    assert_eq!(Err(Error::EmptyString), decode(""));
    assert_eq!(Err(Error::OutOfRange), decode("00000000000000"));
    assert_eq!(Ok(0), decode("0000000000000"));
}

#[test]
fn reserved_letter_rejected_at_index_zero() {
    assert_eq!(
        Err(Error::CheckDigitUnsupported { index: 0, value: 85 }),
        decode("U")
    );
    assert_eq!(
        Err(Error::CheckDigitUnsupported { index: 0, value: 117 }),
        decode("u")
    );
}

#[test]
fn reserved_letter_rejected_mid_input() {
    assert_eq!(
        Err(Error::CheckDigitUnsupported { index: 2, value: 85 }),
        decode("iVUv")
    );
}

#[test]
fn invalid_byte_reported_with_position() {
    assert_eq!(
        Err(Error::InvalidDigit { index: 3, value: 33 }),
        decode("fZZ!2")
    );
    assert_eq!(Err(Error::InvalidDigit { index: 0, value: 64 }), decode("@"));
}

#[test]
fn no_leading_zero_emission() {
    assert_eq!("4ZQ", &*encode(5111));
    assert_eq!("1ZZZ", &*encode(65535));
    assert_eq!("10", &*encode(32));
    assert_eq!("1000000000000", &*encode(1 << 60));
}

#[test]
fn overflow_rejected_not_wrapped() {
    assert_eq!(Err(Error::OutOfRange), decode("ZJ75K085CMJ1A"));
    assert_eq!(Err(Error::OutOfRange), decode("G000000000000"));
    assert_eq!(Ok(u64::MAX), decode("fzzzzzzzzzzzz"));
}

#[test]
fn overflow_detected_before_later_invalid_byte() {
    assert_eq!(Err(Error::OutOfRange), decode("ZZZZZZZZZZZZ!"));
    assert_eq!(Err(Error::InvalidDigit { index: 0, value: 33 }), decode("!ZZZZZZZZZZZZ"));
}

#[test]
fn encode_into_appends_to_vec() {
    let mut buf: Vec<u8> = Vec::with_capacity(13);
    encode_into(5111, &mut buf);
    assert_eq!(b"4ZQ", &*buf);

    encode_into(0, &mut buf);
    assert_eq!(b"4ZQ0", &*buf);
}

#[test]
fn encode_into_appends_to_string() {
    let mut out = String::new();
    encode_into(65535, &mut out);
    assert_eq!("1ZZZ", &*out);

    encode_into(31, &mut out);
    assert_eq!("1ZZZZ", &*out);
}

#[test]
fn encode_output_is_ascii_uppercase() {
    let text = encode(18446744073709551615);
    assert!(text.bytes().all(|b| b.is_ascii_digit() || b.is_ascii_uppercase()));
}
