//! An interpreter core for the untyped lambda calculus.
//!
//! Text is split into tokens, tokens are parsed into terms, terms are reduced
//! by substitution and rendered back to text.  Every executable function is
//! specified against a mathematical model of its data and proved to meet it.

pub mod environment;
pub mod lambda;
pub mod parsing;
pub mod printing;
pub mod reduction;
pub mod round_trip;
pub mod session;
pub mod text;
pub mod tokens;
