use sl_core::text::{addr_string, dec_string, hex_string, str_has_prefix, str_has_suffix};

#[test]
fn decimal_rendering() {
    assert_eq!(dec_string(0), "0");
    assert_eq!(dec_string(7), "7");
    assert_eq!(dec_string(10), "10");
    assert_eq!(dec_string(409), "409");
    assert_eq!(dec_string(12345), "12345");
    assert_eq!(dec_string(usize::MAX), format!("{}", usize::MAX));
}

#[test]
fn hexadecimal_rendering() {
    assert_eq!(hex_string(0), "0");
    assert_eq!(hex_string(15), "f");
    assert_eq!(hex_string(16), "10");
    assert_eq!(hex_string(0xdeadbeef), "deadbeef");
}

#[test]
fn address_rendering() {
    assert_eq!(addr_string(0), "0x0");
    assert_eq!(addr_string(255), "0xff");
    assert_eq!(addr_string(0x7f00_1234), "0x7f001234");
}

#[test]
fn prefix_and_suffix_tests() {
    assert!(str_has_prefix("backtrace::capture", "backtrace::"));
    assert!(!str_has_prefix("my_backtrace::capture", "backtrace::"));
    assert!(str_has_suffix("start_main", "_main"));
    assert!(!str_has_suffix("main_start", "_main"));
    assert!(str_has_prefix("anything", ""));
    assert!(str_has_suffix("anything", ""));
    assert!(!str_has_prefix("ab", "abc"));
    assert!(!str_has_suffix("ab", "abc"));
    assert!(str_has_prefix("abc", "abc"));
    assert!(str_has_suffix("abc", "abc"));
}
