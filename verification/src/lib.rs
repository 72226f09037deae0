//! A library that parses and evaluates Fjord code.
//!
//! The pipeline is: a lexer turns source text into a flat stream of
//! lexemes, a parser assembles those lexemes into a lossless concrete
//! syntax tree, a typed view layer exposes that tree as a grammar, and a
//! tree-walking evaluator turns the tree into values.
//!
//! Scoping is dynamic, and deliberately so: a lambda value captures no
//! environment, and a call evaluates the body in a fresh child scope of
//! the caller's environment, so a free name in the body resolves
//! against whoever calls the lambda. The evaluation rules state this
//! exactly; a caller who wants conventional closures must not rely on
//! free names in lambda bodies.

pub mod ast;
pub mod builder;
pub mod commands;
pub mod env;
pub mod eval;
pub mod lexer;
pub mod parser;
pub mod syntax;
pub mod syntax_kind;
pub mod text_range;
pub mod tree;
pub mod val;

pub use env::Env;
pub use eval::{eval, Error, EvalError, EvalErrorKind, EvalStop, PendingCommand};
pub use parser::{ParseOutput, Parser, SyntaxError};
pub use syntax_kind::SyntaxKind;
pub use text_range::TextRange;
pub use val::{Ty, Val};
