//! A scanner for the Monkey scripting language: it turns source text into
//! tokens, one at a time and on demand, and every step is proved against a
//! mathematical description of the language's lexical grammar.

pub mod bytes;
pub mod grammar;
pub mod lexer;
pub mod parser;
pub mod theorems;
pub mod token;
