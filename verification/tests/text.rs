use paagan::text::{
    concat2, concat3, digit_char, join_with_newlines, owned, pad_right_to, push_decimal, str_eq,
    u64_to_decimal, u64_to_hex8,
};

#[test]
fn decimal_matches_display() {
    for n in [0u64, 7, 10, 99, 100, 5432, 65535, 1 << 40, u64::MAX] {
        assert_eq!(u64_to_decimal(n), n.to_string());
    }
}

#[test]
fn hex8_matches_format() {
    for n in [0u64, 1, 0xF, 0x10, 0xFF, 0x2000028, 0xABCDEF01, 0xFFFF_FFFF, 0x1_0000_0000, u64::MAX] {
        assert_eq!(u64_to_hex8(n), format!("{:08X}", n));
    }
}

#[test]
fn digits() {
    assert_eq!(digit_char(0), '0');
    assert_eq!(digit_char(9), '9');
    assert_eq!(digit_char(10), 'A');
    assert_eq!(digit_char(15), 'F');
}

#[test]
fn padding_matches_format() {
    for s in ["", "a", "NAME", "exactly-ten", "a-name-longer-than-fifteen", "ünï"] {
        assert_eq!(pad_right_to(s, 10), format!("{:<10}", s));
        assert_eq!(pad_right_to(s, 15), format!("{:<15}", s));
    }
}

#[test]
fn joining_lines() {
    let lines = vec!["a".to_string(), "b".to_string(), "".to_string(), "c".to_string()];
    assert_eq!(join_with_newlines(&lines), lines.join("\n"));
    assert_eq!(join_with_newlines(&Vec::new()), "");
    assert_eq!(join_with_newlines(&vec!["x".to_string()]), "x");
}

#[test]
fn small_string_helpers() {
    assert!(str_eq("abc", "abc"));
    assert!(!str_eq("abc", "abd"));
    assert!(!str_eq("abc", "ab"));
    assert_eq!(owned("x"), "x");
    assert_eq!(concat2("a", "bc"), "abc");
    assert_eq!(concat3("paagan-", "db", "-init"), "paagan-db-init");
    let mut s = "port ".to_string();
    push_decimal(&mut s, 5432);
    assert_eq!(s, "port 5432");
}
