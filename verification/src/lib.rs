//! A minimal command-line argument tokenizer with an ANSI text-styling helper.
//!
//! The tokenizer classifies each raw argument into short flags, long flags,
//! positionals, or malformed tokens, with one token of lookahead for flag
//! values. The styler is an immutable builder of ANSI SGR escape codes.

pub mod style;
pub mod tokenizer;

pub use style::Color;
pub use tokenizer::CLI;
pub use tokenizer::join_piped_lines;
pub use tokenizer::tokenize;
