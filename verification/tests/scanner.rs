use simplytyped::scanner::ScanError;
use simplytyped::scanner::Scanner;
use simplytyped::scanner::Token;

#[test]
fn scanner_works() {
    let stream = String::from("(\\x:bool.x) true");
    let tokens = Scanner::scan(stream).unwrap();
    assert_eq!(
        tokens,
        vec![
            Token::LeftParen,
            Token::Lambda,
            Token::Identifier("x".into()),
            Token::Colon,
            Token::Bool,
            Token::Dot,
            Token::Identifier("x".into()),
            Token::RightParen,
            Token::True,
        ]
    );
}

#[test]
fn scans_every_symbol_and_keyword() {
    let tokens = Scanner::scan(String::from("\\ . = ( ) : -> if then else true false bool"))
        .unwrap();
    assert_eq!(
        tokens,
        vec![
            Token::Lambda,
            Token::Dot,
            Token::Equal,
            Token::LeftParen,
            Token::RightParen,
            Token::Colon,
            Token::Arrow,
            Token::If,
            Token::Then,
            Token::Else,
            Token::True,
            Token::False,
            Token::Bool,
        ]
    );
}

#[test]
fn scans_conditional_line() {
    let tokens = Scanner::scan(String::from("if true then false else true")).unwrap();
    assert_eq!(
        tokens,
        vec![
            Token::If,
            Token::True,
            Token::Then,
            Token::False,
            Token::Else,
            Token::True,
        ]
    );
}

#[test]
fn empty_line_scans_to_no_tokens() {
    assert_eq!(Scanner::scan(String::new()).unwrap(), vec![]);
    assert_eq!(Scanner::scan(String::from("   ")).unwrap(), vec![]);
}

#[test]
fn dash_without_arrow_is_an_error() {
    let err = Scanner::scan(String::from("a - b")).unwrap_err();
    assert_eq!(err, ScanError::UnexpectedSymbol('-'));
    let err = Scanner::scan(String::from("x -")).unwrap_err();
    assert_eq!(err, ScanError::UnexpectedSymbol('-'));
}

#[test]
fn digit_cannot_start_a_token() {
    let err = Scanner::scan(String::from("1")).unwrap_err();
    assert_eq!(err, ScanError::InvalidCharacter('1'));
}

#[test]
fn identifier_runs_to_the_next_delimiter() {
    // Only space, dot, backslash, parentheses, colon and dash end an
    // identifier, so `=` is swallowed into one.
    let tokens = Scanner::scan(String::from("a=b c")).unwrap();
    assert_eq!(
        tokens,
        vec![Token::Identifier("a=b".into()), Token::Identifier("c".into())]
    );
}

#[test]
fn identifiers_may_hold_digits_after_the_first_letter() {
    let tokens = Scanner::scan(String::from("x1 true")).unwrap();
    assert_eq!(tokens, vec![Token::Identifier("x1".into()), Token::True]);
}

#[test]
fn non_ascii_letters_scan_as_identifiers() {
    let tokens = Scanner::scan(String::from("λx.x")).unwrap();
    assert_eq!(
        tokens,
        vec![
            Token::Identifier("λx".into()),
            Token::Dot,
            Token::Identifier("x".into()),
        ]
    );
}
