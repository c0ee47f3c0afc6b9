use secure_vault::utils::constant_time_compare;

#[test]
fn test_constant_time_compare() {
    let a = b"hello";
    let b = b"hello";
    let c = b"world";

    assert!(constant_time_compare(a, b));
    assert!(!constant_time_compare(a, c));
}

#[test]
fn test_constant_time_compare_different_lengths() {
    let a = b"hello";
    let b = b"hello world";

    assert!(!constant_time_compare(a, b));
}

#[test]
fn constant_time_compare_empty_and_last_byte() {
    assert!(constant_time_compare(b"", b""));
    assert!(!constant_time_compare(b"abcd", b"abce"));
}
