//! Parsers for the pieces of a dictionary file.

pub mod grammar;
pub mod html;
pub mod raw_csv;
pub mod word_ast;
