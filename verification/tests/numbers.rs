use zrsh::text::{parse_hex_usize, parse_i32, parse_usize, to_chars, token_is};

fn chars(s: &str) -> Vec<char> {
    to_chars(s)
}

#[test]
fn usize_literals() {
    assert_eq!(parse_usize(&chars("0")), Some(0));
    assert_eq!(parse_usize(&chars("42")), Some(42));
    assert_eq!(parse_usize(&chars("+42")), Some(42));
    assert_eq!(parse_usize(&chars("18446744073709551615")), Some(usize::MAX));
    assert_eq!(parse_usize(&chars("18446744073709551616")), None);
    assert_eq!(parse_usize(&chars("")), None);
    assert_eq!(parse_usize(&chars("+")), None);
    assert_eq!(parse_usize(&chars("-1")), None);
    assert_eq!(parse_usize(&chars("4x2")), None);
}

#[test]
fn i32_literals() {
    assert_eq!(parse_i32(&chars("0")), Some(0));
    assert_eq!(parse_i32(&chars("-7")), Some(-7));
    assert_eq!(parse_i32(&chars("+7")), Some(7));
    assert_eq!(parse_i32(&chars("2147483647")), Some(i32::MAX));
    assert_eq!(parse_i32(&chars("2147483648")), None);
    assert_eq!(parse_i32(&chars("-2147483648")), Some(i32::MIN));
    assert_eq!(parse_i32(&chars("-2147483649")), None);
    assert_eq!(parse_i32(&chars("")), None);
    assert_eq!(parse_i32(&chars("-")), None);
    assert_eq!(parse_i32(&chars("12a")), None);
}

#[test]
fn hex_literals() {
    assert_eq!(parse_hex_usize(&chars("8000"), 0), Some(0x8000));
    assert_eq!(parse_hex_usize(&chars("0x8000"), 2), Some(0x8000));
    assert_eq!(parse_hex_usize(&chars("dEaDbEeF"), 0), Some(0xdeadbeef));
    assert_eq!(parse_hex_usize(&chars("xyz"), 0), None);
    assert_eq!(parse_hex_usize(&chars("12"), 2), None);
    assert_eq!(parse_hex_usize(&chars("ffffffffffffffff"), 0), Some(usize::MAX));
    assert_eq!(parse_hex_usize(&chars("10000000000000000"), 0), None);
}

#[test]
fn token_comparison() {
    assert!(token_is(&chars("exit"), "exit"));
    assert!(!token_is(&chars("exit1"), "exit"));
    assert!(!token_is(&chars("exi"), "exit"));
    assert!(!token_is(&chars(""), "cd"));
}
