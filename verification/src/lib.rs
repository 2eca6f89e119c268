//! Reading and querying dict.cc translation dictionaries.
//!
//! A dictionary file is read into a `VecDict`. A query on it gives a
//! `DictQueryResult`, which can be put into groups for display.

pub mod dict;
pub mod error;
pub mod parse;
pub mod text;

pub use crate::dict::entry::{DictEntry, DictWord};
pub use crate::dict::grouped;
pub use crate::dict::language::{DictLanguagePair, Language};
pub use crate::dict::query;
pub use crate::dict::read;
pub use crate::dict::render;
pub use crate::dict::word_class::{Gender, WordClass};
pub use crate::dict::VecDict;
