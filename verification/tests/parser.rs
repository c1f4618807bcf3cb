use simplytyped::ast::Constant;
use simplytyped::ast::Expr;
use simplytyped::ast::Type;
use simplytyped::parser::ParseError;
use simplytyped::parser::Parser;
use simplytyped::scanner::Scanner;
use simplytyped::scanner::Token;

#[test]
fn parser_works() {
    let stream = vec![
        Token::LeftParen,
        Token::Lambda,
        Token::Identifier("x".into()),
        Token::Colon,
        Token::Bool,
        Token::Dot,
        Token::Identifier("x".into()),
        Token::RightParen,
        Token::True,
    ];
    let e = Parser::parse(stream).unwrap();
    assert_eq!(
        e,
        Expr::App {
            e1: Box::new(Expr::Abs {
                x: "x".into(),
                t: Type::Bool,
                e: Box::new(Expr::Var("x".into()))
            }),
            e2: Box::new(Expr::Constant(Constant::True))
        }
    );
}

fn parse_line(line: &str) -> Result<Expr, ParseError> {
    Parser::parse(Scanner::scan(line.to_string()).unwrap())
}

#[test]
fn application_is_left_associative() {
    let e = parse_line("f x y").unwrap();
    assert_eq!(
        e,
        Expr::App {
            e1: Box::new(Expr::App {
                e1: Box::new(Expr::Var("f".into())),
                e2: Box::new(Expr::Var("x".into())),
            }),
            e2: Box::new(Expr::Var("y".into())),
        }
    );
}

#[test]
fn conditional_parses() {
    let e = parse_line("if true then false else true").unwrap();
    assert_eq!(
        e,
        Expr::If {
            e1: Box::new(Expr::Constant(Constant::True)),
            e2: Box::new(Expr::Constant(Constant::False)),
            e3: Box::new(Expr::Constant(Constant::True)),
        }
    );
}

#[test]
fn arrow_type_is_right_associative() {
    let e = parse_line("\\f:bool->bool->bool.x").unwrap();
    assert_eq!(
        e,
        Expr::Abs {
            x: "f".into(),
            t: Type::Fn(
                Box::new(Type::Bool),
                Box::new(Type::Fn(Box::new(Type::Bool), Box::new(Type::Bool))),
            ),
            e: Box::new(Expr::Var("x".into())),
        }
    );
}

#[test]
fn parenthesized_domain_type_parses() {
    let e = parse_line("\\f:(bool->bool)->bool.x").unwrap();
    assert_eq!(
        e,
        Expr::Abs {
            x: "f".into(),
            t: Type::Fn(
                Box::new(Type::Fn(Box::new(Type::Bool), Box::new(Type::Bool))),
                Box::new(Type::Bool),
            ),
            e: Box::new(Expr::Var("x".into())),
        }
    );
}

#[test]
fn empty_stream_is_an_error() {
    assert_eq!(Parser::parse(vec![]).unwrap_err(), ParseError::EmptyInput);
}

#[test]
fn stray_token_is_unexpected() {
    assert_eq!(
        Parser::parse(vec![Token::Then]).unwrap_err(),
        ParseError::UnexpectedToken
    );
}

#[test]
fn unclosed_parenthesis_is_a_missing_token() {
    assert_eq!(parse_line("(x").unwrap_err(), ParseError::MissingToken);
}

#[test]
fn binder_must_be_an_identifier() {
    assert_eq!(
        parse_line("\\:bool.x").unwrap_err(),
        ParseError::ExpectedIdentifier
    );
}

#[test]
fn binder_must_have_a_type() {
    assert_eq!(parse_line("\\x:.x").unwrap_err(), ParseError::ExpectedType);
}

#[test]
fn literal_heads_an_application() {
    let e = parse_line("true x").unwrap();
    assert_eq!(
        e,
        Expr::App {
            e1: Box::new(Expr::Constant(Constant::True)),
            e2: Box::new(Expr::Var("x".into())),
        }
    );
    let e = parse_line("false true").unwrap();
    assert_eq!(
        e,
        Expr::App {
            e1: Box::new(Expr::Constant(Constant::False)),
            e2: Box::new(Expr::Constant(Constant::True)),
        }
    );
}

#[test]
fn the_whole_stream_must_be_one_term() {
    assert_eq!(parse_line("x )").unwrap_err(), ParseError::UnexpectedToken);
    assert_eq!(parse_line("x (").unwrap_err(), ParseError::UnexpectedToken);
    assert_eq!(
        parse_line("true then").unwrap_err(),
        ParseError::UnexpectedToken
    );
}

#[test]
fn rendering_reparses_to_the_same_term() {
    for line in [
        "(\\x:bool.x) true",
        "if true then false else true",
        "\\x:bool->bool.\\y:bool.x y",
        "\\f:(bool->bool)->bool.f (\\z:bool.z) x",
        "f x y",
        "true x",
    ] {
        let e = parse_line(line).unwrap();
        let e2 = parse_line(&e.to_string()).unwrap();
        assert_eq!(e2, e);
    }
}
