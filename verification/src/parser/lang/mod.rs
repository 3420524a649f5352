//! Per-language parser implementations.
//!
//! The five core languages parse with their tree-sitter grammar; the generic
//! parser works from the code structure that `tree-sitter-language-pack` extracts.

pub mod rust_parser;
pub mod python_parser;
pub mod typescript_parser;
pub mod go_parser;
pub mod c_parser;
pub mod generic_parser;
