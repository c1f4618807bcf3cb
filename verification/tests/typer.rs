use simplytyped::ast::Constant;
use simplytyped::ast::Expr;
use simplytyped::ast::Type;
use simplytyped::parser::Parser;
use simplytyped::scanner::Scanner;
use simplytyped::typer::TypeError;
use simplytyped::typer::Typer;

#[test]
fn typer_works() {
    let e = Expr::Abs {
        x: "x".into(),
        t: Type::Bool,
        e: Box::new(Expr::Var("x".into())),
    };
    let ty = Typer::default().typecheck(&e).unwrap();
    assert_eq!(ty, Type::Fn(Box::new(Type::Bool), Box::new(Type::Bool)));
}

fn type_line(line: &str) -> Result<Type, TypeError> {
    let e = Parser::parse(Scanner::scan(line.to_string()).unwrap()).unwrap();
    Typer::default().typecheck(&e)
}

#[test]
fn constants_are_boolean() {
    assert_eq!(
        Typer::default().typecheck(&Expr::Constant(Constant::True)).unwrap(),
        Type::Bool
    );
    assert_eq!(
        Typer::default().typecheck(&Expr::Constant(Constant::False)).unwrap(),
        Type::Bool
    );
}

#[test]
fn unbound_variable_is_named() {
    assert_eq!(
        type_line("\\x:bool.y").unwrap_err(),
        TypeError::UnboundVariable("y".into())
    );
}

#[test]
fn shadowing_binds_to_the_inner_type() {
    // The inner binder hides the outer one inside its own body only.
    assert_eq!(
        type_line("\\x:bool.\\x:bool->bool.x").unwrap(),
        Type::Fn(
            Box::new(Type::Bool),
            Box::new(Type::Fn(
                Box::new(Type::Fn(Box::new(Type::Bool), Box::new(Type::Bool))),
                Box::new(Type::Fn(Box::new(Type::Bool), Box::new(Type::Bool))),
            )),
        )
    );
    // After the inner body, the outer binding is in force again: the
    // argument `x` below has the outer type, not the inner one, and is
    // not unbound either.
    assert_eq!(
        type_line("\\x:bool->bool.(\\x:bool.true) x").unwrap_err(),
        TypeError::ArgumentTypeMismatch(
            Type::Bool,
            Type::Fn(Box::new(Type::Bool), Box::new(Type::Bool)),
        )
    );
}

#[test]
fn argument_type_mismatch_names_both_types() {
    assert_eq!(
        type_line("(\\x:bool.x) (\\y:bool.y)").unwrap_err(),
        TypeError::ArgumentTypeMismatch(
            Type::Bool,
            Type::Fn(Box::new(Type::Bool), Box::new(Type::Bool)),
        )
    );
}

#[test]
fn applying_a_boolean_is_not_a_function() {
    assert_eq!(
        type_line("true false").unwrap_err(),
        TypeError::NotAFunction(Expr::Constant(Constant::True))
    );
}

#[test]
fn condition_must_be_boolean() {
    assert_eq!(
        type_line("if (\\x:bool.x) then true else false").unwrap_err(),
        TypeError::ConditionNotBoolean(Type::Fn(Box::new(Type::Bool), Box::new(Type::Bool)))
    );
}

#[test]
fn branches_must_agree() {
    assert_eq!(
        type_line("if true then true else \\x:bool.x").unwrap_err(),
        TypeError::BranchTypeMismatch(
            Type::Bool,
            Type::Fn(Box::new(Type::Bool), Box::new(Type::Bool)),
        )
    );
}
