use mail_relay::size::parse_size;

#[test]
fn parse_size_megabytes() {
    assert_eq!(parse_size("25MB"), Some(25 * 1024 * 1024));
}

#[test]
fn parse_size_unknown_unit() {
    assert_eq!(parse_size("10XB"), None);
}

#[test]
fn parse_size_empty() {
    assert_eq!(parse_size(""), None);
}

#[test]
fn parse_size_case_insensitive() {
    assert_eq!(parse_size("25mb"), Some(25 * 1024 * 1024));
    assert_eq!(parse_size("3Kb"), Some(3 * 1024));
}

#[test]
fn parse_size_unit_only() {
    assert_eq!(parse_size("KB"), None);
}

#[test]
fn parse_size_no_unit() {
    assert_eq!(parse_size("100"), None);
}

#[test]
fn parse_size_bytes_unit() {
    assert_eq!(parse_size("512B"), Some(512));
}

#[test]
fn parse_size_large_units() {
    assert_eq!(parse_size("2GB"), Some(2 * 1024 * 1024 * 1024));
    assert_eq!(parse_size("1TB"), Some(1024u64 * 1024 * 1024 * 1024));
}

#[test]
fn parse_size_trimmed() {
    assert_eq!(parse_size(" 25KB "), Some(25 * 1024));
}

#[test]
fn parse_size_value_overflow() {
    assert_eq!(parse_size("99999999999999999999B"), None);
}

#[test]
fn parse_size_product_overflow() {
    assert_eq!(parse_size("18446744073709551615KB"), None);
}

#[test]
fn parse_size_inner_blank_rejected() {
    assert_eq!(parse_size("25 MB"), None);
}
