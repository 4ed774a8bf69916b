//! A C/C++ source formatter: a lossless lexer, a brace-injection pass, a
//! token-driven layout machine and three column-alignment passes, all verified.

pub mod align;
pub mod braces;
pub mod command;
pub mod config;
pub mod content;
pub mod emit;
pub mod error;
pub mod formatter;
pub mod inject;
pub mod keep;
pub mod laws;
pub mod layout;
pub mod lexer;
pub mod machine;
pub mod neat;
pub mod scan;
pub mod spacing;
pub mod std_contracts;
pub mod text;
pub mod token;
pub mod trivia;
pub mod walk;
pub mod words;
