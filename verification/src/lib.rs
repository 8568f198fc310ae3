//! A lexer for a small tag/filter expression language, tracking exact
//! line, column and byte-offset positions for every token, together with
//! validation of a tag configuration.

pub mod config;
pub mod laws;
pub mod token;
pub mod tokenizer;

pub use config::{
    derive_db_path, sort_dedup, validate_config, Config, ConfigValidationError, ParsedConfig,
    TagIndex,
};
pub use token::{Span, Token, TokenKind};
pub use token::{class_of, is_digit, is_space};
pub use tokenizer::{tokenize, Tokenizer};
