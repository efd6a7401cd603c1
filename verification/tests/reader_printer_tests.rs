use mal_core::env::Interp;
use mal_core::reader::{read_str, tokenize};
use mal_core::types::{MalType, ParseError};

fn print_back(text: &str) -> String {
    let interp = Interp::new();
    let v = read_str(String::from(text)).ok().expect("the text must parse");
    v.pr_str(&interp, true)
}

#[test]
fn test_tokenize_basics() {
    let toks = tokenize(String::from("(+ 1 ,, 2) ; a comment\n~@x \"a b\""));
    let expect = vec!["(", "+", "1", "2", ")", "~@", "x", "\"a b\""];
    assert_eq!(expect.len(), toks.len());
    for (t, e) in toks.iter().zip(expect.iter()) {
        assert_eq!(e, t);
    }
}

#[test]
fn test_read_print_round_trip() {
    assert_eq!("(1 2 (3 4 [5 6]))", print_back("(1 2 (3 4 [5 6]))"));
    assert_eq!("nil", print_back("nil"));
    assert_eq!("true", print_back("  true  "));
    assert_eq!("(quote a)", print_back("'a"));
    assert_eq!("(quasiquote a)", print_back("`a"));
    assert_eq!("(unquote a)", print_back("~a"));
    assert_eq!("(splice-unquote a)", print_back("~@a"));
    assert_eq!("(deref a)", print_back("@a"));
    assert_eq!("-42", print_back("-42"));
    assert_eq!("{1 2}", print_back("{1 2}"));
}

#[test]
fn test_string_escapes() {
    assert_eq!("\"a\\\"b\\nc\\\\d\"", print_back("\"a\\\"b\\nc\\\\d\""));
    let interp = Interp::new();
    let v = read_str(String::from("\"x\\ny\"")).ok().unwrap();
    // non-readable mode prints the raw characters
    assert_eq!("x\ny", v.pr_str(&interp, false));
}

#[test]
fn test_empty_input_reads_nil() {
    let interp = Interp::new();
    let v = read_str(String::from("   ; only a comment")).ok().unwrap();
    assert_eq!("nil", v.pr_str(&interp, true));
}

#[test]
fn test_parse_errors() {
    assert!(matches!(
        read_str(String::from("(1 2")),
        Err(ParseError::NoClosingParen(')'))
    ));
    assert!(matches!(
        read_str(String::from("[1 2")),
        Err(ParseError::NoClosingParen(']'))
    ));
    assert!(matches!(
        read_str(String::from("{1 2")),
        Err(ParseError::NoClosingParen('}'))
    ));
    assert!(matches!(
        read_str(String::from("{1}")),
        Err(ParseError::MissingValue(_))
    ));
    assert!(matches!(
        read_str(String::from("\"abc")),
        Err(ParseError::NoClosingParen('"'))
    ));
    assert!(matches!(
        read_str(String::from("12ab")),
        Err(ParseError::InvalidNum(_))
    ));
    assert!(matches!(
        read_str(String::from("+12ab")),
        Err(ParseError::InvalidNum(_))
    ));
}

#[test]
fn test_numbers() {
    assert_eq!("7", print_back("+7"));
    assert_eq!("0", print_back("000"));
    assert_eq!("9223372036854775807", print_back("9223372036854775807"));
    assert_eq!("-9223372036854775808", print_back("-9223372036854775808"));
    assert!(matches!(
        read_str(String::from("9223372036854775808")),
        Err(ParseError::InvalidNum(_))
    ));
}

#[test]
fn test_plus_alone_is_symbol() {
    let v = read_str(String::from("+")).ok().unwrap();
    assert!(matches!(v, MalType::Symbol(_)));
}

#[test]
fn test_structural_equality() {
    let a = read_str(String::from("(1 [2 3] \"s\")")).ok().unwrap();
    let b = read_str(String::from("(1 [2 3] \"s\")")).ok().unwrap();
    let c = read_str(String::from("(1 (2 3) \"s\")")).ok().unwrap();
    assert!(a.struct_eq(&b));
    assert!(!a.struct_eq(&c));
    // the language's own equality identifies lists and vectors
    assert!(a.mal_eq(&c));
}
