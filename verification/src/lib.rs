pub mod ast;
pub mod interpreter;
pub mod parser;
pub mod scanner;
pub mod soundness;
pub mod subst;
pub mod typer;

pub use ast::Constant;
pub use ast::Expr;
pub use ast::Term;
pub use ast::Type;
pub use interpreter::EvalError;
pub use interpreter::interpret;
pub use interpreter::is_value;
pub use parser::ParseError;
pub use parser::Parser;
pub use scanner::ScanError;
pub use scanner::Scanner;
pub use scanner::Token;
pub use subst::fv;
pub use subst::substitute;
pub use subst::vars;
pub use typer::TypeError;
pub use typer::Typer;
