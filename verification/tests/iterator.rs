use crockford::iterator::FiveBitIterator;

fn collect_chunks(mut it: FiveBitIterator) -> Vec<u8> {
    let mut v = Vec::new();
    while let Some(chunk) = it.next() {
        v.push(chunk);
    }
    v
}

#[test]
fn iterator_zero_returns_zero() {
    let input = 0;
    let expected = &[0];
    let actual = collect_chunks(FiveBitIterator::new(input));

    assert_eq!(expected, &*actual);
}

#[test]
fn values_below_32_return_single_values() {
    let input = 31;
    let expected = &[31];
    let actual = collect_chunks(FiveBitIterator::new(input));

    assert_eq!(expected, &*actual);
}

#[test]
fn thirty_two_becomes_zero_one() {
    let input = 32;
    let expected = &[0, 1];
    let actual = collect_chunks(FiveBitIterator::new(input));

    assert_eq!(expected, &*actual);
}

#[test]
fn large_values_return_correct_values() {
    let input = 4546;
    let expected = &[2, 14, 4];
    let actual = collect_chunks(FiveBitIterator::new(input));

    assert_eq!(expected, &*actual);
}
