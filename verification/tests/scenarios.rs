//! End-to-end runs of a line through the scanner, the parser, the type
//! checker and the evaluator.

use simplytyped::ast::Constant;
use simplytyped::ast::Expr;
use simplytyped::ast::Type;
use simplytyped::interpreter::interpret;
use simplytyped::parser::Parser;
use simplytyped::scanner::Scanner;
use simplytyped::typer::TypeError;
use simplytyped::typer::Typer;

const STEPS: u64 = 10_000;

fn parse_line(line: &str) -> Expr {
    Parser::parse(Scanner::scan(line.to_string()).unwrap()).unwrap()
}

#[test]
fn identity_applied_to_true() {
    let e = parse_line("(\\x:bool.x) true");
    assert_eq!(Typer::default().typecheck(&e).unwrap(), Type::Bool);
    for by_value in [true, false] {
        assert_eq!(
            interpret(&e, by_value, STEPS).unwrap(),
            Expr::Constant(Constant::True)
        );
    }
}

#[test]
fn conditional_picks_the_then_branch() {
    let e = parse_line("if true then false else true");
    assert_eq!(Typer::default().typecheck(&e).unwrap(), Type::Bool);
    for by_value in [true, false] {
        assert_eq!(
            interpret(&e, by_value, STEPS).unwrap(),
            Expr::Constant(Constant::False)
        );
    }
}

#[test]
fn free_variable_in_a_body_is_unbound() {
    let e = parse_line("\\x:bool.y");
    assert_eq!(
        Typer::default().typecheck(&e).unwrap_err(),
        TypeError::UnboundVariable("y".into())
    );
}

#[test]
fn identity_applied_to_an_abstraction_mismatches() {
    let e = parse_line("(\\x:bool.x) (\\y:bool.y)");
    assert_eq!(
        Typer::default().typecheck(&e).unwrap_err(),
        TypeError::ArgumentTypeMismatch(
            Type::Bool,
            Type::Fn(Box::new(Type::Bool), Box::new(Type::Bool)),
        )
    );
}

#[test]
fn higher_order_abstraction_types() {
    let e = parse_line("\\x:bool->bool.\\y:bool.x y");
    assert_eq!(
        Typer::default().typecheck(&e).unwrap(),
        Type::Fn(
            Box::new(Type::Fn(Box::new(Type::Bool), Box::new(Type::Bool))),
            Box::new(Type::Fn(Box::new(Type::Bool), Box::new(Type::Bool))),
        )
    );
}

#[test]
fn types_render_with_parenthesized_function_domains() {
    let t = Type::Fn(
        Box::new(Type::Fn(Box::new(Type::Bool), Box::new(Type::Bool))),
        Box::new(Type::Fn(Box::new(Type::Bool), Box::new(Type::Bool))),
    );
    assert_eq!(t.to_string(), "(bool -> bool) -> bool -> bool");
    assert_eq!(Type::Bool.to_string(), "bool");
}

#[test]
fn terms_render_in_canonical_syntax() {
    let e = parse_line("(\\x:bool.x) true");
    assert_eq!(e.to_string(), "(\\x: bool.x) true");
    let c = parse_line("if true then false else true");
    assert_eq!(c.to_string(), "if true then false else true");
    let a = parse_line("f x y");
    assert_eq!(a.to_string(), "(f x) y");
}
