use netdash::text::{
    contains_ignore_ascii_case, eq_ignore_ascii_case, format_bytes, join_names,
    names_suffix_match, parse_u64, str_eq, str_starts_with, trim_ascii, u64_to_string,
};

#[test]
fn bytes_format_with_binary_prefixes() {
    assert_eq!(format_bytes(0), "0 B");
    assert_eq!(format_bytes(512), "512 B");
    assert_eq!(format_bytes(1023), "1023 B");
    assert_eq!(format_bytes(1024), "1.00 KB");
    assert_eq!(format_bytes(1536), "1.50 KB");
    assert_eq!(format_bytes(1048576), "1.00 MB");
    assert_eq!(format_bytes(5 * 1048576 + 262144), "5.25 MB");
    assert_eq!(format_bytes(1073741824), "1.00 GB");
    assert_eq!(format_bytes(3 * 1073741824 + 536870912), "3.50 GB");
}

#[test]
fn decimal_rendering_is_exact() {
    assert_eq!(u64_to_string(0), "0");
    assert_eq!(u64_to_string(7), "7");
    assert_eq!(u64_to_string(1234567890), "1234567890");
    assert_eq!(u64_to_string(u64::MAX), "18446744073709551615");
}

#[test]
fn decimal_parsing_accepts_exactly_u64() {
    assert_eq!(parse_u64("0"), Some(0));
    assert_eq!(parse_u64("0042"), Some(42));
    assert_eq!(parse_u64("18446744073709551615"), Some(u64::MAX));
    assert_eq!(parse_u64("18446744073709551616"), None);
    assert_eq!(parse_u64(""), None);
    assert_eq!(parse_u64("12a"), None);
    assert_eq!(parse_u64("-1"), None);
    assert_eq!(parse_u64(" 1"), None);
}

#[test]
fn trimming_strips_ascii_whitespace() {
    assert_eq!(trim_ascii("  hello \r\n"), "hello");
    assert_eq!(trim_ascii("a b"), "a b");
    assert_eq!(trim_ascii(" \t\r\n"), "");
    assert_eq!(trim_ascii(""), "");
}

#[test]
fn case_insensitive_comparison() {
    assert!(eq_ignore_ascii_case("Eth0", "eTH0"));
    assert!(!eq_ignore_ascii_case("eth0", "eth1"));
    assert!(!eq_ignore_ascii_case("eth0", "eth00"));
    assert!(str_eq("abc", "abc"));
    assert!(!str_eq("abc", "abd"));
    assert!(str_starts_with("eth0:1", "eth0"));
    assert!(!str_starts_with("eth", "eth0"));
}

#[test]
fn suffix_matching_strips_alphabetic_prefixes() {
    assert!(names_suffix_match("eth0", "en0"));
    assert!(names_suffix_match("wlan12", "wlp12"));
    assert!(!names_suffix_match("eth0", "eth1"));
    // Purely alphabetic names have empty suffixes and never match.
    assert!(!names_suffix_match("eth", "en"));
    assert!(!names_suffix_match("", "en0"));
}

#[test]
fn substring_search_ignores_case() {
    assert!(contains_ignore_ascii_case("Software LoopBack Interface", "loopback"));
    assert!(contains_ignore_ascii_case("loopback", "loopback"));
    assert!(!contains_ignore_ascii_case("loopbac", "loopback"));
    assert!(!contains_ignore_ascii_case("eth0", "loopback"));
}

#[test]
fn names_join_with_comma_separator() {
    assert_eq!(join_names(&vec![]), "");
    assert_eq!(join_names(&vec!["eth0".to_string()]), "eth0");
    assert_eq!(
        join_names(&vec!["eth0".to_string(), "wlan0".to_string(), "en1".to_string()]),
        "eth0, wlan0, en1"
    );
}
