use er_planet::cli::parse_seed_value;

#[test]
fn parses_decimal_by_default_and_explicit_hex() {
    assert_eq!(parse_seed_value("12345"), Some(12_345));
    assert_eq!(parse_seed_value("0x12345"), Some(0x12345));
    assert_eq!(parse_seed_value("0XC0FFEE"), Some(0xC0FFEE));
}

#[test]
fn rejects_invalid_or_empty_seed_values() {
    assert_eq!(parse_seed_value(""), None);
    assert_eq!(parse_seed_value("0x"), None);
    assert_eq!(parse_seed_value("not-a-seed"), None);
}

#[test]
fn seed_values_edge_cases() {
    assert_eq!(parse_seed_value("  42\t\n"), Some(42));
    assert_eq!(parse_seed_value("\u{3000}7\u{2029}"), Some(7));
    assert_eq!(parse_seed_value("+9"), Some(9));
    assert_eq!(parse_seed_value("-9"), None);
    assert_eq!(parse_seed_value("18446744073709551615"), Some(u64::MAX));
    assert_eq!(parse_seed_value("18446744073709551616"), None);
    assert_eq!(parse_seed_value("0xffffffffffffffff"), Some(u64::MAX));
    assert_eq!(parse_seed_value("0x10000000000000000"), None);
    assert_eq!(parse_seed_value("0xAbC"), Some(0xABC));
    assert_eq!(parse_seed_value("0x g"), None);
    assert_eq!(parse_seed_value("0x+1f"), Some(0x1f));
    assert_eq!(parse_seed_value("007"), Some(7));
    assert_eq!(parse_seed_value("0"), Some(0));
    assert_eq!(parse_seed_value("12a"), None);
}

#[test]
fn seed_values_read_back_in_decimal_and_hex() {
    for x in [0u64, 9, 10, 255, 0xC0FFEE, 1 << 40, u64::MAX - 1, u64::MAX] {
        for w in ["", " ", "\t\n", "\u{3000}\u{2029}"] {
            assert_eq!(parse_seed_value(&format!("{w}{x}{w}")), Some(x));
            assert_eq!(parse_seed_value(&format!("{w}0x{x:x}{w}")), Some(x));
            assert_eq!(parse_seed_value(&format!("{w}0X{x:X}{w}")), Some(x));
        }
    }
}
