//! A small S-expression evaluator: integers, symbols, booleans, pairs and
//! user-defined procedures with lexical closures, evaluated against an
//! explicit environment of scopes.
//!
//! `eval` states exactly what an expression evaluates to through the spec
//! function `semantics::evaluate`, over the models `expr::Term` and `env::Scope`;
//! `laws` proves properties of that semantics.

pub mod env;
pub mod eval;
pub mod expr;
pub mod laws;
pub mod parser;
pub mod semantics;
pub mod session;
pub mod text;

pub use env::LispEnv;
pub use eval::eval;
pub use expr::{LispErr, LispExpr, LispFunc};
pub use parser::{parse, to_lispexpr, tokenize, AstNode};
pub use semantics::{SpecialForm, MAX_CALL_DEPTH};
pub use session::{eval_all, eval_string};
