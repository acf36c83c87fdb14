use dex_pool_cache::address::is_valid_address;
use dex_pool_cache::address::normalize_address;

#[test]
fn normalize_lowercases_and_strips_prefix() {
    assert_eq!(normalize_address("0xABC"), "abc");
    assert_eq!(normalize_address("abc"), "abc");
    assert_eq!(normalize_address("0xabc"), "abc");
}

#[test]
fn normalize_is_case_insensitive() {
    assert_eq!(normalize_address("0xABC"), normalize_address("abc"));
    assert_eq!(normalize_address("0XAB"), normalize_address("0xab"));
    assert_eq!(normalize_address("AbCd"), normalize_address("aBcD"));
}

#[test]
fn normalize_is_idempotent() {
    for input in [
        "0xABC",
        "0XABC",
        "abc",
        "",
        "0x",
        "0x0xAbC",
        "0 x 1",
        "zz!?",
        "0xDeadBeef",
    ] {
        let once = normalize_address(input);
        let twice = normalize_address(&once);
        assert_eq!(twice, once, "normalization not idempotent for {input:?}");
    }
}

#[test]
fn normalize_strips_repeated_markers() {
    assert_eq!(normalize_address("0x0xaa"), "aa");
    assert_eq!(normalize_address("0X0xAA"), "aa");
}

#[test]
fn normalize_of_empty_is_empty() {
    assert_eq!(normalize_address(""), "");
    assert_eq!(normalize_address("0x"), "");
}

#[test]
fn valid_address_accepts_even_lowercase_hex() {
    assert!(is_valid_address("aa"));
    assert!(is_valid_address("deadbeef"));
    assert!(is_valid_address("0123456789abcdef"));
}

#[test]
fn valid_address_rejects_malformed() {
    assert!(!is_valid_address(""));
    assert!(!is_valid_address("a"));
    assert!(!is_valid_address("abc"));
    assert!(!is_valid_address("zz"));
    assert!(!is_valid_address("AA"));
    assert!(!is_valid_address("0x"));
}
