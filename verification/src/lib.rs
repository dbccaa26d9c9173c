//! A small Lisp: a reader that turns text into expressions and an evaluator
//! that reduces expressions against an environment of bindings.
//!
//! Numbers are IEEE 754 double-precision values, carried as their 64 bits.
//! The library orders, negates and zero-tests them itself; adding, subtracting,
//! multiplying, dividing, reading and printing them is the caller's part,
//! handed in as a function.
#![allow(unused_imports)]

pub mod builtin;
pub mod data;
pub mod env;
pub mod error;
pub mod eval;
pub mod number;
pub mod parser;
pub mod printer;
pub mod roundtrip;
pub mod semantics;
pub mod text;

pub use builtin::apply_builtin_op;
pub use data::{Expr, ExprView};
pub use env::Env;
pub use error::{Builtin, EvalError, ParseError};
pub use eval::{apply_procedure, eval, eval_define, eval_if, eval_lambda, eval_within};
pub use number::ArithOp;
pub use parser::{atom, parse, read_from_tokens, tokenize};
