use crockford::format::Case;
use crockford::format::Encoder;
use crockford::format::Formatter;
use crockford::encode_into;

#[test]
fn lowercase_encoder_works() {
    let encoder = Encoder::new();
    let result = encoder.encode(5111);

    assert_eq!("4zq", &*result.render());
}

#[test]
fn uppercase_encoder_works() {
    let encoder = Encoder::with_case(Case::Upper);
    let result = encoder.encode(5111);

    assert_eq!("4ZQ", &*result.render());
}

#[test]
fn explicit_lowercase_encoder_works() {
    let encoder = Encoder::with_case(Case::Lower);
    let result = encoder.encode(5111);

    assert_eq!("4zq", &*result.render());
}

#[test]
fn default_encoder_matches_new() {
    let result = Encoder::default().encode(65535);

    assert_eq!("1zzz", &*result.render());
}

#[test]
fn formatter_receives_written_symbols() {
    let encoder = Encoder::with_case(Case::Upper);
    let mut f = Formatter::new(&encoder);
    encode_into(5111, &mut f);

    assert_eq!("4ZQ", &*f.render());
}
