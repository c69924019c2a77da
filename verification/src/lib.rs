//! The verified front half of a small expression language: a lexer that
//! turns source text into position-tagged tokens, exact decimal number
//! values, runtime values with their renderings, and a lexically scoped
//! environment of variables.
//!
//! Each part is specified against a mathematical model: the lexer against
//! a scanning function over the character sequence, numbers against exact
//! decimal arithmetic, and the environment against a stack of binding
//! frames.

pub mod builtins;
pub mod environment;
pub mod laws;
pub mod named_source;
pub mod numbers;
pub mod parser;
pub mod span;
pub mod strutil;
pub mod tokenizer;
pub mod values;
