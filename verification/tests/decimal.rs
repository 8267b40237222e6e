use bloomset::decimal::{u64_to_pad5, u64_to_string};

#[test]
fn test_decimal_rendering() {
    assert_eq!(u64_to_string(0), "0");
    assert_eq!(u64_to_string(7), "7");
    assert_eq!(u64_to_string(1226), "1226");
    assert_eq!(u64_to_string(u64::MAX), "18446744073709551615");
}

#[test]
fn test_padded_fraction_rendering() {
    assert_eq!(u64_to_pad5(0), "00000");
    assert_eq!(u64_to_pad5(50000), "50000");
    assert_eq!(u64_to_pad5(999), "00999");
}
