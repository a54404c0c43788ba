use zrsh::engine::codegen::get_code;
use zrsh::engine::do_matching;
use zrsh::engine::parser::{parse, ParseError};
use zrsh::engine::Instruction;

#[test]
fn test_matching() {
    // rejected patterns
    assert!(do_matching("+b", "bbb", true).is_err());
    assert!(do_matching("*b", "bbb", true).is_err());
    assert!(do_matching("|b", "bbb", true).is_err());
    assert!(do_matching("?b", "bbb", true).is_err());

    // well-formed patterns that match
    assert!(do_matching("abc|def", "def", true).unwrap());
    assert!(do_matching("(abc)*", "abcabc", true).unwrap());
    assert!(do_matching("(ab|cd)+", "abcdcd", true).unwrap());
    assert!(do_matching("abc?", "ab", true).unwrap());
    assert!(do_matching("((((a*)*)*)*)", "aaaaaaaaa", true).unwrap());
    assert!(do_matching("(a*)*b", "aaaaaaaaab", true).unwrap());
    assert!(do_matching("(a*)*b", "b", true).unwrap());
    assert!(do_matching("a**b", "aaaaaaaaab", true).unwrap());
    assert!(do_matching("a**b", "b", true).unwrap());

    // well-formed patterns that do not match
    assert!(!do_matching("abc|def", "efa", true).unwrap());
    assert!(!do_matching("(ab|cd)+", "", true).unwrap());
    assert!(!do_matching("abc?", "acb", true).unwrap());
}

#[test]
fn matching_breadth_first() {
    assert!(do_matching("abc|def", "def", false).unwrap());
    assert!(do_matching("(ab|cd)+", "abcdcd", false).unwrap());
    assert!(!do_matching("abc|def", "efa", false).unwrap());
    assert!(do_matching("a**b", "b", false).unwrap());
}

#[test]
fn parse_error_variants() {
    assert!(matches!(parse(""), Err(ParseError::Empty)));
    assert!(matches!(parse("()"), Err(ParseError::Empty)));
    assert!(matches!(parse("ab)"), Err(ParseError::InvalidRightParen(2))));
    assert!(matches!(parse("(ab"), Err(ParseError::NoRightParen)));
    assert!(matches!(parse("+a"), Err(ParseError::NoPrev(0))));
    assert!(matches!(parse("a|+"), Err(ParseError::NoPrev(2))));
    assert!(matches!(parse("\\d"), Err(ParseError::InvalidEscape(1, 'd'))));
    assert!(parse("\\+").is_ok());
    assert!(parse("a(b|c)*d?").is_ok());
}

#[test]
fn code_ends_with_match() {
    let ast = parse("a(b|c)*").unwrap();
    let code = get_code(&ast).unwrap();
    assert!(code.len() >= 1);
    assert_eq!(code[code.len() - 1], Instruction::Match);
}

#[test]
fn escaped_metacharacters_are_literal() {
    assert!(do_matching("\\*a", "*a", true).unwrap());
    assert!(!do_matching("\\*a", "xa", true).unwrap());
    assert!(do_matching("a\\|b", "a|b", true).unwrap());
}
