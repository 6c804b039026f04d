use nfmw_backend::text::{parse_u64_dec, str_eq, u64_to_dec_string};
use nfmw_backend::uuid::{parse_uuid, uuid_to_string, uuid_version_of};

#[test]
fn uuid_formats_in_canonical_lowercase() {
    assert_eq!(uuid_to_string(0), "00000000-0000-0000-0000-000000000000");
    let v: u128 = 0x0123456789abcdef0123456789abcdef;
    assert_eq!(uuid_to_string(v), "01234567-89ab-cdef-0123-456789abcdef");
    assert_eq!(uuid_to_string(u128::MAX), "ffffffff-ffff-ffff-ffff-ffffffffffff");
}

#[test]
fn uuid_parses_either_case_and_round_trips() {
    let v: u128 = 0x0123456789abcdef0123456789abcdef;
    assert_eq!(parse_uuid("01234567-89ab-cdef-0123-456789abcdef"), Some(v));
    assert_eq!(parse_uuid("01234567-89AB-CDEF-0123-456789ABCDEF"), Some(v));
    for probe in [0u128, 1, 42, u128::MAX, v] {
        assert_eq!(parse_uuid(uuid_to_string(probe).as_str()), Some(probe));
    }
}

#[test]
fn malformed_uuids_are_refused() {
    assert_eq!(parse_uuid(""), None);
    assert_eq!(parse_uuid("01234567-89ab-cdef-0123-456789abcde"), None);
    assert_eq!(parse_uuid("01234567-89ab-cdef-0123-456789abcdef0"), None);
    assert_eq!(parse_uuid("0123456789abcdef0123456789abcdef"), None);
    assert_eq!(parse_uuid("01234567x89ab-cdef-0123-456789abcdef"), None);
    assert_eq!(parse_uuid("0123456g-89ab-cdef-0123-456789abcdef"), None);
    assert_eq!(parse_uuid("01234567-89ab-cdef-0123-456789abcd-f"), None);
}

#[test]
fn version_nibble_is_the_thirteenth_digit() {
    let v4 = parse_uuid("01234567-89ab-4def-0123-456789abcdef").unwrap();
    assert_eq!(uuid_version_of(v4), 4);
    let v1 = parse_uuid("01234567-89ab-1def-0123-456789abcdef").unwrap();
    assert_eq!(uuid_version_of(v1), 1);
    assert_eq!(uuid_version_of(0), 0);
}

#[test]
fn decimal_rendering_is_exact() {
    assert_eq!(u64_to_dec_string(0), "0");
    assert_eq!(u64_to_dec_string(7), "7");
    assert_eq!(u64_to_dec_string(105), "105");
    assert_eq!(u64_to_dec_string(u64::MAX), "18446744073709551615");
}

#[test]
fn decimal_parsing_is_exact_and_bounded() {
    assert_eq!(parse_u64_dec("0"), Some(0));
    assert_eq!(parse_u64_dec("105"), Some(105));
    assert_eq!(parse_u64_dec("007"), Some(7));
    assert_eq!(parse_u64_dec("18446744073709551615"), Some(u64::MAX));
    assert_eq!(parse_u64_dec("18446744073709551616"), None);
    assert_eq!(parse_u64_dec(""), None);
    assert_eq!(parse_u64_dec("12a"), None);
    assert_eq!(parse_u64_dec("-3"), None);
    assert_eq!(parse_u64_dec("123456789012345678901"), None);
}

#[test]
fn str_eq_compares_contents() {
    assert!(str_eq("", ""));
    assert!(str_eq("abc", "abc"));
    assert!(!str_eq("abc", "abd"));
    assert!(!str_eq("abc", "ab"));
    assert!(str_eq("\u{e9}t\u{e9}", "\u{e9}t\u{e9}"));
    assert!(!str_eq("\u{e9}", "e"));
}
