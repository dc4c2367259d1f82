//! A two-pass assembler for the LC-3 architecture.
//!
//! The pipeline runs in four stages: `lexer::tokenize` turns source text into
//! tokens, `parser::parse_lines` groups them into source lines, `first_pass`
//! resolves every label to an address, and `encoder::encode` produces the
//! 16-bit machine words. Every stage collects diagnostics instead of stopping.
pub mod encoder;
pub mod error;
pub mod first_pass;
pub mod lexer;
pub mod parser;
pub mod text;
