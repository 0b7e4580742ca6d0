//! Front end of a small typed functional language: a lexer, a parser for
//! type annotations, literals and single-parameter closures, and name
//! resolution against the table of definitions collected so far.
pub mod chars;
pub mod numeric;
pub mod lexer;
pub mod syntax;
pub mod parser;
pub mod builtins;
pub mod pipeline;
pub mod laws;
