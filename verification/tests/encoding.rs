use crockford::decode;
use crockford::encode;

#[test]
fn encoding_zero_returns_zero() {
    let input = 0;
    let expected = "0";
    let actual = encode(input);
    assert_eq!(expected, &*actual);
}

#[test]
fn large_value_returns_correct_large_value() {
    let input = 65535;
    let expected = "1ZZZ";
    let actual = encode(input);
    assert_eq!(expected, &*actual);
}

#[test]
fn x5111_is_4zq() {
    assert_eq!("4ZQ", &*encode(5111));
}

#[test]
fn x18446744073709551615_is_fzzzzzzzzzzzz() {
    assert_eq!("FZZZZZZZZZZZZ", &*encode(18446744073709551615));
}

#[test]
fn large_odd_number() {
    let x = 0b10000000_00000000_00000000_00000000_00000000_00000000_00000000_00000001;
    let y = decode(&encode(x)).unwrap();
    assert_eq!(x, y);
}

#[test]
fn large_even_number() {
    let x = 0b10000000_00000000_00000000_00000000_00000000_00000000_00000000_00000000;
    let y = decode(&encode(x)).unwrap();
    assert_eq!(x, y);
}

#[test]
fn tiny_number() {
    let x = 1;
    let y = decode(&encode(x)).unwrap();
    assert_eq!(x, y);
}
