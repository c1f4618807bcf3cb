use simplytyped::ast::Constant;
use simplytyped::ast::Expr;
use simplytyped::ast::Type;
use simplytyped::interpreter::EvalError;
use simplytyped::interpreter::interpret;
use simplytyped::interpreter::is_value;
use simplytyped::parser::Parser;
use simplytyped::scanner::Scanner;
use simplytyped::subst::fv;
use simplytyped::subst::substitute;

const STEPS: u64 = 10_000;

#[test]
fn substitution() {
    // (\x.x y)[y := x] => (\x1.x1 x)
    let e = Expr::Abs {
        x: "x".into(),
        t: Type::Bool,
        e: Box::new(Expr::App {
            e1: Box::new(Expr::Var("x".into())),
            e2: Box::new(Expr::Var("y".into())),
        }),
    };
    let e2 = substitute(&e, &"y".into(), &Expr::Var("x".into()));
    assert_eq!(
        e2,
        Expr::Abs {
            x: "x1".into(),
            t: Type::Bool,
            e: Box::new(Expr::App {
                e1: Box::new(Expr::Var("x1".into())),
                e2: Box::new(Expr::Var("x".into()))
            })
        }
    );
}

#[test]
fn substitution_under_shadowing_binder_is_a_no_op() {
    // (\x.x)[x := true] leaves the abstraction alone: the binder shadows.
    let e = Expr::Abs {
        x: "x".into(),
        t: Type::Bool,
        e: Box::new(Expr::Var("x".into())),
    };
    let e2 = substitute(&e, &"x".into(), &Expr::Constant(Constant::True));
    assert_eq!(e, e2);
}

#[test]
fn fresh_name_skips_taken_names() {
    // (\x.x1 (x y))[y := x]: both x and x1 are taken, so the binder
    // becomes x11.
    let e = Expr::Abs {
        x: "x".into(),
        t: Type::Bool,
        e: Box::new(Expr::App {
            e1: Box::new(Expr::Var("x1".into())),
            e2: Box::new(Expr::App {
                e1: Box::new(Expr::Var("x".into())),
                e2: Box::new(Expr::Var("y".into())),
            }),
        }),
    };
    let e2 = substitute(&e, &"y".into(), &Expr::Var("x".into()));
    assert_eq!(
        e2,
        Expr::Abs {
            x: "x11".into(),
            t: Type::Bool,
            e: Box::new(Expr::App {
                e1: Box::new(Expr::Var("x1".into())),
                e2: Box::new(Expr::App {
                    e1: Box::new(Expr::Var("x11".into())),
                    e2: Box::new(Expr::Var("x".into())),
                }),
            }),
        }
    );
}

#[test]
fn free_variables_exclude_the_binder() {
    let e = Expr::Abs {
        x: "x".into(),
        t: Type::Bool,
        e: Box::new(Expr::App {
            e1: Box::new(Expr::Var("x".into())),
            e2: Box::new(Expr::Var("y".into())),
        }),
    };
    assert_eq!(fv(&e), vec![String::from("y")]);
}

fn eval_line(line: &str, by_value: bool) -> Result<Expr, EvalError> {
    let e = Parser::parse(Scanner::scan(line.to_string()).unwrap()).unwrap();
    interpret(&e, by_value, STEPS)
}

#[test]
fn values_evaluate_to_themselves() {
    for line in ["true", "false", "x", "\\x:bool.x"] {
        for by_value in [true, false] {
            let e = Parser::parse(Scanner::scan(line.to_string()).unwrap()).unwrap();
            assert!(is_value(&e));
            assert_eq!(interpret(&e, by_value, STEPS).unwrap(), e);
        }
    }
}

#[test]
fn beta_reduction_applies_the_abstraction() {
    assert_eq!(
        eval_line("(\\x:bool.x) true", true).unwrap(),
        Expr::Constant(Constant::True)
    );
    assert_eq!(
        eval_line("(\\x:bool.x) true", false).unwrap(),
        Expr::Constant(Constant::True)
    );
}

#[test]
fn strategies_agree_on_terminating_terms() {
    for line in [
        "(\\x:bool.x) true",
        "if true then false else true",
        "(\\f:bool->bool.f ((\\x:bool.x) false)) (\\y:bool.y)",
        "(\\x:bool.true) ((\\y:bool.y) false)",
    ] {
        let v1 = eval_line(line, true).unwrap();
        let v2 = eval_line(line, false).unwrap();
        assert_eq!(v1, v2);
    }
}

#[test]
fn evaluation_is_idempotent_on_normal_forms() {
    for by_value in [true, false] {
        let v = eval_line("(\\x:bool.x) ((\\y:bool.y) true)", by_value).unwrap();
        assert_eq!(interpret(&v, by_value, STEPS).unwrap(), v);
    }
}

#[test]
fn applying_a_constant_is_stuck() {
    let e = Expr::App {
        e1: Box::new(Expr::Constant(Constant::True)),
        e2: Box::new(Expr::Constant(Constant::False)),
    };
    match interpret(&e, true, STEPS).unwrap_err() {
        EvalError::StuckTerm(m) => assert_eq!(m, e),
        other => panic!("expected a stuck term, got {:?}", other),
    }
}

#[test]
fn conditional_on_an_abstraction_is_stuck() {
    let cond = Expr::Abs {
        x: "x".into(),
        t: Type::Bool,
        e: Box::new(Expr::Var("x".into())),
    };
    let e = Expr::If {
        e1: Box::new(cond.duplicate()),
        e2: Box::new(Expr::Constant(Constant::True)),
        e3: Box::new(Expr::Constant(Constant::False)),
    };
    match interpret(&e, false, STEPS).unwrap_err() {
        EvalError::StuckTerm(m) => assert_eq!(m, e),
        other => panic!("expected a stuck term, got {:?}", other),
    }
}

#[test]
fn step_budget_of_zero_reports_the_unreduced_term() {
    let e = Parser::parse(
        Scanner::scan("(\\x:bool.x) true".to_string()).unwrap(),
    )
    .unwrap();
    match interpret(&e, true, 0).unwrap_err() {
        EvalError::StepLimit(m) => assert_eq!(m, e),
        other => panic!("expected the step limit, got {:?}", other),
    }
}

#[test]
fn call_by_name_skips_the_unused_argument() {
    // Call-by-name never reduces the argument, so one step suffices for
    // a constant function; call-by-value reduces the argument first.
    let e = Parser::parse(
        Scanner::scan("(\\x:bool.true) ((\\y:bool.y) false)".to_string()).unwrap(),
    )
    .unwrap();
    assert_eq!(interpret(&e, false, 2).unwrap(), Expr::Constant(Constant::True));
    match interpret(&e, true, 1).unwrap_err() {
        EvalError::StepLimit(_) => {}
        other => panic!("expected the step limit, got {:?}", other),
    }
    assert_eq!(interpret(&e, true, 3).unwrap(), Expr::Constant(Constant::True));
}
