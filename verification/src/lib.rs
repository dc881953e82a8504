//! Yu — a small programming language that speaks Ukrainian and English.
//!
//! This crate holds the language's front end and everything around it that is not
//! arithmetic on numbers: the lexer and parser, the messages and their rendering, the
//! built-ins' names, colours, the library of words, and the pieces of the terminal and
//! the Studio that decide rather than do.
pub mod ast;
pub mod builtins;
pub mod cli;
pub mod diagnostic;
pub mod draw;
pub mod host;
pub mod keywords;
pub mod lang;
pub mod lexer;
pub mod library;
pub mod names;
pub mod options;
pub mod parser;
pub mod span;
pub mod studio;
pub mod suggest;
pub mod svg;
pub mod text;
pub mod token;

pub use diagnostic::{Diagnostic, ErrorKind};
pub use draw::Rgb;
pub use host::Host;
pub use lang::Lang;
pub use options::Options;
pub use span::Span;
