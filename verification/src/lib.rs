//! A lexer and a Pratt parser for the Monkey programming language, together
//! with the object model of its interpreter, specified and verified with Verus.

pub mod text;
pub mod token;
pub mod lexer;
pub mod ast;
pub mod parser;
pub mod object;
pub mod tracing;
pub mod user;
