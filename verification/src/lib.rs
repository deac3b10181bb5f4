//! The front end of a small scripting language: a lexer, a recursive-descent
//! parser with precedence climbing, a structural type checker, and the
//! runtime value and scope-chain types its evaluation rests on.
mod ast;
mod environment;
mod eval;
mod lexer;
mod parser;
mod tokens;
mod typechecker;

pub use ast::Expression;
pub use environment::Environment;
pub use eval::infix_value;
pub use eval::is_truthy_spec;
pub use eval::lemma_division_truncates;
pub use eval::lemma_expr_soundness;
pub use eval::lemma_stmt_soundness;
pub use eval::lemma_type_soundness;
pub use eval::prefix_value;
pub use eval::render_spec;
pub use eval::trunc_div;
pub use eval::value_has_type;
pub use eval::EvalStop;
pub use eval::Evaluator;
pub use eval::RuntimeError;
pub use eval::SpecErr;
pub use eval::SpecStop;
pub use eval::SpecValue;
pub use eval::Value;
pub use lexer::Lexer;
pub use parser::ParseError;
pub use parser::Parser;
pub use typechecker::string_to_type;
pub use typechecker::ty_of;
pub use typechecker::typecheck;
pub use typechecker::Type;
pub use typechecker::TypeError;
pub use typechecker::TypeMap;
pub use ast::SpecExpr;
pub use ast::SpecStmt;
pub use ast::Statement;
pub use tokens::SpecToken;
pub use tokens::Token;
