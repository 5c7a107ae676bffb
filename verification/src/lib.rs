//! A small stack language: words are parsed into a tree of values, and the
//! tree is evaluated against an operand stack and a table of variables.
//!
//! A line such as `/x 10 def { x 3 < } { 1 } { 2 } if` is split into words
//! ([`text`]), the words are parsed into a [`parse::Value`] tree ([`parse`]),
//! and the tree is evaluated on a [`vm::Vm`] ([`eval`], [`op`]). Programs
//! are written in postfix order; a primitive takes the top of the stack as
//! its left operand. A block between `{` and `}` is an operand: it is pushed
//! whole, and runs only when `if` chooses it.
//!
//! Nothing here panics or prints. A failure is an [`error::EvalError`] or an
//! [`error::LineError`], and what `puts` writes is collected in the
//! machine for the caller to print. Every function states what it returns
//! and what it does to the machine over the models [`parse::Term`] and
//! [`vm::State`]; [`laws`] holds what follows for all programs.

pub mod error;
pub mod eval;
pub mod laws;
pub mod op;
pub mod parse;
pub mod stack;
pub mod text;
pub mod vm;
