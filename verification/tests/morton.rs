use vanrijn::util::morton::{morton_order_value_3d, spread_bits};

#[test]
fn zero_yields_zero() {
    assert!(spread_bits(0) == 0);
}

#[test]
fn one_yields_one() {
    assert!(spread_bits(1) == 1);
}

#[test]
fn b1111_yields_b1001001001() {
    assert!(spread_bits(0b1111) == 0b1001001001);
}

#[test]
fn b1010_yields_b1000001000() {
    assert!(spread_bits(0b1010) == 0b1000001000);
}

#[test]
fn bits_above_the_ninth_are_dropped() {
    assert_eq!(spread_bits(0b11_0000_0000), 0b1 << 24);
    assert_eq!(spread_bits(u32::MAX), 0b001_001_001_001_001_001_001_001_001);
}

#[test]
fn morton_value_interleaves_coordinates() {
    assert_eq!(morton_order_value_3d(0, 0, 0), 0);
    assert_eq!(morton_order_value_3d(1, 0, 0), 0b100);
    assert_eq!(morton_order_value_3d(0, 1, 0), 0b010);
    assert_eq!(morton_order_value_3d(0, 0, 1), 0b001);
    assert_eq!(morton_order_value_3d(0b11, 0b01, 0b10), 0b101_110);
    assert_eq!(morton_order_value_3d(511, 511, 511), (1 << 27) - 1);
}
