//! Lexical front end of a TeX-family typesetting processor.
//!
//! Raw bytes pass through a logical character decoder (caret notation,
//! CRLF folding), a category-code driven tokenizer, and a command-name
//! interner, producing a stream of typed tokens with compact source
//! locations in a flat global offset space.

pub mod category_code;
pub mod command_identifier;
pub mod lex_model;
pub mod lexer;
pub mod maybe_char;
pub mod memory_buffer;
pub mod preprocessor;
pub mod source_location;
pub mod source_manager;
pub mod token;
