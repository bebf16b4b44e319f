//! A small Lisp-like expression language: a parser from one line of text to
//! an expression tree, and an evaluator over an environment of variables and
//! user-defined functions.

pub mod env;
pub mod evaluator;
pub mod floats;
pub mod grammar;
pub mod laws;
pub mod parser;
pub mod render;
pub mod roundtrip;
pub mod semantics;
pub mod types;

pub use evaluator::{Context, EvalError, Function, MAX_DEPTH};
pub use floats::Binary64;
pub use parser::{expression, parse_str, sexpr, SyntaxError};
pub use render::render;
pub use types::{Atom, Bool, Expr, Num, Ops};
