//! The configuration of the compositor.

pub mod answers;
pub mod color;
pub mod fields;
pub mod keys;
pub mod lexer;
pub mod lsp;
pub mod parser;
pub mod paths;
pub mod reading;
pub mod rules;
pub mod settings;
pub mod tokens;
pub mod value;
pub mod vars;
pub mod wire;
pub mod words;
