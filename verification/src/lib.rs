//! A verified translator for a small embedded shell-command language.
//!
//! A stream of syntactic tokens describing external-process invocations
//! (program name, arguments, optional input source, optional output sink,
//! statement separators) is classified, parsed by a statement state machine
//! into an intermediate representation, and re-emitted as host code that
//! builds runtime command objects.

pub mod driver;
pub mod emit;
pub mod error;
pub mod laws;
pub mod literal;
pub mod parser;
pub mod token;

pub use driver::lex;
