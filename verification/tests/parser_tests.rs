//! Tests of the s-expression scanner and parser.

use infera::cst::{Identifier, Integer, LParen, List, RParen, SExp, Span, Token};
use infera::parser::{Error, Parser};
use infera::scanner::{ScanError, Scanner};

fn parse_one(text: &str) -> SExp {
    let scanner = Scanner::from_str(text);
    let mut parser = Parser::new(scanner);
    parser.parse_sexp().unwrap()
}

#[test]
fn test_parse_list_ids() {
    let scanner = Scanner::from_str("(foo baz bar)");
    let mut parser = Parser::new(scanner);
    let e0 = parser.parse_sexp().unwrap();
    let SExp::List(List { open_delim, elements, tail, close_delim }) = e0 else {
        panic!("not a sexp list");
    };
    assert_eq!(open_delim, Token::LParen(LParen { span: Span { start: 0, end: 1 } }));
    assert_eq!(
        elements[0],
        SExp::Identifier(Identifier { text: "foo".to_string(), span: Span { start: 1, end: 4 } })
    );
    assert_eq!(
        elements[1],
        SExp::Identifier(Identifier { text: "baz".to_string(), span: Span { start: 5, end: 8 } })
    );
    assert_eq!(
        elements[2],
        SExp::Identifier(Identifier { text: "bar".to_string(), span: Span { start: 9, end: 12 } })
    );
    assert_eq!(tail, None);
    assert_eq!(close_delim, Token::RParen(RParen { span: Span { start: 12, end: 13 } }));
}

#[test]
fn test_parse_symbol() {
    let scanner = Scanner::from_str("foo");
    let mut parser = Parser::new(scanner);
    let e0 = parser.parse_sexp().unwrap();
    assert_eq!(
        e0,
        SExp::Identifier(Identifier { text: "foo".to_string(), span: Span { start: 0, end: 3 } })
    );
}

#[test]
fn test_parse_integer() {
    let scanner = Scanner::from_str("1234");
    let mut parser = Parser::new(scanner);
    let e0 = parser.parse_sexp().unwrap();
    assert_eq!(e0, SExp::Integer(Integer { value: 1234, span: Span { start: 0, end: 4 } }));
}

#[test]
fn test_scan_identifier() {
    let mut scanner = Scanner::from_str("foo");
    let t0 = scanner.scan().unwrap();
    assert_eq!(
        t0,
        Token::Identifier(Identifier { text: "foo".to_string(), span: Span { start: 0, end: 3 } })
    );
}

#[test]
fn parser_test_parse_list_ids() {
    let scanner = Scanner::from_str("(foo baz bar)");
    let mut parser = Parser::new(scanner);
    let e0 = parser.parse_sexp().unwrap();
    let SExp::List(List { open_delim, elements, tail, close_delim }) = e0 else {
        panic!("not a sexp list");
    };
    assert_eq!(open_delim, Token::LParen(LParen::new(Span { start: 0, end: 1 })));
    assert_eq!(
        elements[0],
        SExp::Identifier(Identifier::new("foo".to_string(), Span { start: 1, end: 4 }))
    );
    assert_eq!(
        elements[1],
        SExp::Identifier(Identifier::new("baz".to_string(), Span { start: 5, end: 8 }))
    );
    assert_eq!(
        elements[2],
        SExp::Identifier(Identifier::new("bar".to_string(), Span { start: 9, end: 12 }))
    );
    assert_eq!(tail, None);
    assert_eq!(close_delim, Token::RParen(RParen::new(Span { start: 12, end: 13 })));
}

#[test]
fn parser_test_parse_symbol() {
    let e0 = parse_one("foo");
    assert_eq!(
        e0,
        SExp::Identifier(Identifier { text: "foo".to_string(), span: Span { start: 0, end: 3 } })
    );
}

#[test]
fn parser_test_parse_integer() {
    let e0 = parse_one("1234");
    assert_eq!(e0, SExp::Integer(Integer { value: 1234, span: Span { start: 0, end: 4 } }));
}

#[test]
fn scan_skips_whitespace_and_comments() {
    let mut scanner = Scanner::from_str("  ; a comment\n\t(");
    let t0 = scanner.scan().unwrap();
    assert_eq!(t0, Token::LParen(LParen { span: Span { start: 15, end: 16 } }));
    let t1 = scanner.scan().unwrap();
    assert_eq!(t1, Token::EndOfFile);
}

#[test]
fn scan_symbol_characters() {
    let mut scanner = Scanner::from_str("=> a-b_c9");
    let t0 = scanner.scan().unwrap();
    assert_eq!(
        t0,
        Token::Identifier(Identifier { text: "=>".to_string(), span: Span { start: 0, end: 2 } })
    );
    let t1 = scanner.scan().unwrap();
    assert_eq!(
        t1,
        Token::Identifier(Identifier {
            text: "a-b_c9".to_string(),
            span: Span { start: 3, end: 9 }
        })
    );
}

#[test]
fn scan_rejects_unexpected_character() {
    let mut scanner = Scanner::from_str("  #");
    let e = scanner.scan().unwrap_err();
    assert_eq!(e, ScanError::UnexpectedChar { ch: '#', offset: 2 });
}

#[test]
fn scan_rejects_integer_overflow() {
    let mut scanner = Scanner::from_str("99999999999999999999");
    let e = scanner.scan().unwrap_err();
    assert_eq!(e, ScanError::IntegerOverflow { span: Span { start: 0, end: 20 } });
}

#[test]
fn parse_file_collects_elements() {
    let scanner = Scanner::from_str("(a b) c 7 ; trailing\n");
    let mut parser = Parser::new(scanner);
    let file = parser.parse_file().unwrap();
    assert_eq!(file.elements.len(), 3);
    assert!(matches!(file.elements[0], SExp::List(..)));
    assert!(matches!(file.elements[1], SExp::Identifier(..)));
    assert!(matches!(file.elements[2], SExp::Integer(..)));
}

#[test]
fn parse_dotted_pair_and_emit() {
    let e = parse_one("(a . b)");
    assert_eq!(e.emit_string(), "(a . b)".to_string());
    let flat = parse_one("( and x ( or y z ) )");
    assert_eq!(flat.emit_string(), "(and x (or y z))".to_string());
}

#[test]
fn emit_integers_in_decimal() {
    let e = parse_one("12345");
    assert_eq!(e.emit_string(), "12345".to_string());
    let neg = SExp::Integer(Integer { value: -42, span: Span { start: 0, end: 0 } });
    assert_eq!(neg.emit_string(), "-42".to_string());
}

#[test]
fn list_accessors_check_shapes() {
    let e = parse_one("(defthm x y)");
    let l = e.as_list().unwrap();
    assert_eq!(l.get(0).unwrap().as_keyword("defthm").unwrap().text, "defthm".to_string());
    assert_eq!(l.get(1).unwrap().as_identifier().unwrap().text, "x".to_string());
    assert!(l.get(3).is_err());
    assert!(e.as_identifier().is_err());
    assert!(e.as_integer().is_err());
    let i = parse_one("5");
    assert_eq!(i.as_integer().unwrap().value, 5);
}

#[test]
fn parse_errors_on_bad_shapes() {
    let scanner = Scanner::from_str("(a b");
    let mut parser = Parser::new(scanner);
    assert_eq!(parser.parse_sexp().unwrap_err(), Error::UnexpectedEnd);
    let scanner = Scanner::from_str(")");
    let mut parser = Parser::new(scanner);
    assert_eq!(parser.parse_sexp().unwrap_err(), Error::UnexpectedToken { offset: 0 });
    let scanner = Scanner::from_str(".");
    let mut parser = Parser::new(scanner);
    assert_eq!(parser.parse_sexp().unwrap_err(), Error::UnexpectedToken { offset: 0 });
    let scanner = Scanner::from_str("[a]");
    let mut parser = Parser::new(scanner);
    assert_eq!(parser.parse_sexp().unwrap_err(), Error::UnexpectedToken { offset: 0 });
    let scanner = Scanner::from_str("(a . b . c)");
    let mut parser = Parser::new(scanner);
    assert_eq!(parser.parse_sexp().unwrap_err(), Error::UnexpectedToken { offset: 7 });
    let scanner = Scanner::from_str("(a #)");
    let mut parser = Parser::new(scanner);
    assert!(matches!(parser.parse_sexp().unwrap_err(), Error::Scan(..)));
}
