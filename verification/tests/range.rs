use rvasm::imm::{fits_signed, sext, sext_};

#[test]
fn range_check_width_12_bounds() {
    assert!(fits_signed(2047, 12));
    assert!(!fits_signed(2048, 12));
    assert!(fits_signed(-2048, 12));
    assert!(!fits_signed(-2049, 12));
    assert!(fits_signed(0, 12));
}

#[test]
fn range_check_width_20_bounds() {
    assert!(fits_signed(524287, 20));
    assert!(!fits_signed(524288, 20));
    assert!(fits_signed(-524288, 20));
    assert!(!fits_signed(-524289, 20));
}

#[test]
fn range_check_width_1() {
    assert!(fits_signed(0, 1));
    assert!(fits_signed(-1, 1));
    assert!(!fits_signed(1, 1));
    assert!(!fits_signed(-2, 1));
}

#[test]
fn range_check_width_32() {
    assert!(fits_signed(2147483647, 32));
    assert!(!fits_signed(2147483648, 32));
    assert!(fits_signed(-2147483648, 32));
    assert!(!fits_signed(-2147483649, 32));
}

#[test]
fn range_check_width_64() {
    assert!(fits_signed(i64::MAX, 64));
    assert!(fits_signed(i64::MIN, 64));
    assert!(fits_signed(0, 64));
}

#[test]
fn sext_recovers_in_range_values() {
    assert_eq!(sext_(2047, 12), 2047);
    assert_eq!(sext_(-2048, 12), -2048);
    assert_eq!(sext_(17, 12), 17);
    assert_eq!(sext_(-1, 12), -1);
    assert_eq!(sext_(i64::MIN, 64), i64::MIN);
    assert_eq!(sext_(i64::MAX, 64), i64::MAX);
}

#[test]
fn sext_interprets_low_bits() {
    assert_eq!(sext_(0xFFF, 12), -1);
    assert_eq!(sext_(0x800, 12), -2048);
    assert_eq!(sext_(0x7FF, 12), 2047);
    // high bits beyond the field are ignored
    assert_eq!(sext_(0x7FFF_F001, 12), 1);
    assert_eq!(sext_(-4096 + 5, 12), 5);
}

#[test]
fn sext_const_width() {
    assert_eq!(sext::<20>(0xFFFFF), -1);
    assert_eq!(sext::<20>(524287), 524287);
    assert_eq!(sext::<20>(0x80000), -524288);
}
