use mm::debug::{print_hex, print_u64};

fn units(text: &str) -> Vec<u16> {
    text.encode_utf16().collect()
}

#[test]
fn decimal_of_zero_is_one_digit() {
    assert_eq!(print_u64(0), units("0"));
}

#[test]
fn decimal_digits_come_highest_first() {
    assert_eq!(print_u64(7), units("7"));
    assert_eq!(print_u64(10), units("10"));
    assert_eq!(print_u64(12345), units("12345"));
    assert_eq!(print_u64(1_000_000), units("1000000"));
}

#[test]
fn decimal_of_the_highest_number_has_twenty_digits() {
    assert_eq!(print_u64(u64::MAX), units("18446744073709551615"));
    assert_eq!(print_u64(u64::MAX).len(), 20);
}

#[test]
fn decimal_reads_back() {
    for n in [0u64, 9, 10, 99, 100, 4096, 0x0010_0000_0000_0000, u64::MAX] {
        let text = String::from_utf16(&print_u64(n)).unwrap();
        assert_eq!(text.parse::<u64>().ok(), Some(n));
        assert!(n == 0 || !text.starts_with('0'));
    }
}

#[test]
fn hex_of_zero() {
    assert_eq!(print_hex(0), units("0x0\n"));
}

#[test]
fn hex_digits_are_lower_case() {
    assert_eq!(print_hex(0xDEAD_BEEF), units("0xdeadbeef\n"));
    assert_eq!(print_hex(0x10), units("0x10\n"));
    assert_eq!(print_hex(0xa), units("0xa\n"));
    assert_eq!(print_hex(9), units("0x9\n"));
}

#[test]
fn hex_of_the_highest_number_has_sixteen_digits() {
    assert_eq!(print_hex(u64::MAX), units("0xffffffffffffffff\n"));
}

#[test]
fn hex_reads_back() {
    for n in [1u64, 15, 16, 255, 0x1000, 0x0123_4567_89ab_cdef, u64::MAX] {
        let text = String::from_utf16(&print_hex(n)).unwrap();
        let digits = text.strip_prefix("0x").unwrap().strip_suffix('\n').unwrap();
        assert_eq!(u64::from_str_radix(digits, 16).ok(), Some(n));
        assert!(!digits.starts_with('0'));
    }
}
