//! The errors of this crate.

use vstd::prelude::*;
use vstd::string::StringExecFns;
use crate::dict::language::Language;
use crate::text::{decimal, decimal_string};

verus! {

/// The error that the `regex` crate reports for a pattern that it cannot
/// compile.
#[verifier::external_type_specification]
#[verifier::external_body]
pub struct ExRegexError(regex::Error);

/// All errors that this crate returns.
#[derive(Debug)]
pub enum DictError {
    /// A gender tag that is none of `f`, `m`, `n`, `pl`, `sg`.
    UnknownGender { name: String },
    /// A word class tag that is not known.
    UnknownWordClass { word_class: String },
    /// A query type that is none of `w`, `word`, `e`, `exact`, `r`, `regex`.
    UnknownQueryType { query_type: String },
    /// A language code that does not have two characters.
    InvalidLanguageCode { lang: String },
    /// A source language that is neither language of the dictionary.
    InvalidSourceLanguage { source_language: Language },
    /// A phrase of which only a first part could be parsed.
    WordASTRemainingInput { word: String, remaining_input: String },
    /// A phrase of which nothing could be parsed.
    WordASTParse { word: String },
    /// A text with character references that cannot be decoded.
    HtmlDecode { input: String },
    /// A record that does not have as many fields as a record has.
    IncompleteEntry { expected_len: usize, len: usize },
    /// A dictionary whose first line names no pair of languages.
    LanguageCodeNotFound,
    /// A dictionary file that could not be opened.
    FileOpen { path: String, cause: String },
    /// Any other failure to read.
    Io { cause: String },
    /// A search pattern that does not compile.
    Regex(regex::Error),
}

/// A result whose error is a `DictError`.
pub type DictResult<T> = Result<T, DictError>;

/// The text that `{:?}` gives for a string with these characters: the
/// string between double quotes, with escapes for the characters that need
/// them.
pub uninterp spec fn quoted(s: Seq<char>) -> Seq<char>;

/// Writes `s` with the `Debug` format of the standard library, which
/// depends on the characters of `s` alone.
#[verifier::external_body]
fn quote(s: &str) -> (r: String)
    ensures
        r@ == quoted(s@),
{
    format!("{:?}", s)
}

/// Calls `to_string` on an error of the `regex` crate: the message of the
/// error.
#[verifier::external_body]
fn regex_error_text(e: &regex::Error) -> String {
    e.to_string()
}

impl DictError {
    /// The message of the error, for all errors but those of the `regex`
    /// crate, which bring their own.
    pub open spec fn message(&self) -> Option<Seq<char>> {
        match self {
            DictError::UnknownGender { name } => Some("Unknown gender name: "@ + name@),
            DictError::UnknownWordClass { word_class } => Some(
                "Unknown word class: "@ + word_class@,
            ),
            DictError::UnknownQueryType { query_type } => Some(
                "Unknown query type: "@ + query_type@,
            ),
            DictError::InvalidLanguageCode { lang } => Some("Invalid language code: "@ + lang@),
            DictError::InvalidSourceLanguage { source_language } => Some(
                "Invalid source language: "@ + source_language.name(),
            ),
            DictError::WordASTRemainingInput { word, remaining_input } => Some(
                "Could not completely parse "@ + quoted(word@) + ": remaining input: "@ + quoted(
                    remaining_input@,
                ),
            ),
            DictError::WordASTParse { word } => Some("Could not parse "@ + quoted(word@)),
            DictError::HtmlDecode { input } => Some(
                "Could not decode HTML character references: "@ + quoted(input@),
            ),
            DictError::IncompleteEntry { expected_len, len } => Some(
                "Incomplete entry in dictionary: found record with "@ + decimal(*len as nat)
                    + " fields, but a record has "@ + decimal(*expected_len as nat) + " fields"@,
            ),
            DictError::LanguageCodeNotFound => Some("Language code not found"@),
            DictError::FileOpen { path, cause } => Some(
                "Could not open dictionary file at "@ + quoted(path@) + ": "@ + cause@,
            ),
            DictError::Io { cause } => Some(cause@),
            DictError::Regex(_) => None,
        }
    }

    /// The message of the error.
    pub fn to_string(&self) -> (r: String)
        ensures
            self.message() matches Some(text) ==> r@ == text,
    {
        match self {
            DictError::UnknownGender { name } => {
                let mut r = "Unknown gender name: ".to_owned();
                r.append(name.as_str());
                r
            },
            DictError::UnknownWordClass { word_class } => {
                let mut r = "Unknown word class: ".to_owned();
                r.append(word_class.as_str());
                r
            },
            DictError::UnknownQueryType { query_type } => {
                let mut r = "Unknown query type: ".to_owned();
                r.append(query_type.as_str());
                r
            },
            DictError::InvalidLanguageCode { lang } => {
                let mut r = "Invalid language code: ".to_owned();
                r.append(lang.as_str());
                r
            },
            DictError::InvalidSourceLanguage { source_language } => {
                let mut r = "Invalid source language: ".to_owned();
                r.append(source_language.to_string().as_str());
                r
            },
            DictError::WordASTRemainingInput { word, remaining_input } => {
                let mut r = "Could not completely parse ".to_owned();
                r.append(quote(word.as_str()).as_str());
                r.append(": remaining input: ");
                r.append(quote(remaining_input.as_str()).as_str());
                r
            },
            DictError::WordASTParse { word } => {
                let mut r = "Could not parse ".to_owned();
                r.append(quote(word.as_str()).as_str());
                r
            },
            DictError::HtmlDecode { input } => {
                let mut r = "Could not decode HTML character references: ".to_owned();
                r.append(quote(input.as_str()).as_str());
                r
            },
            DictError::IncompleteEntry { expected_len, len } => {
                let mut r = "Incomplete entry in dictionary: found record with ".to_owned();
                r.append(decimal_string(*len).as_str());
                r.append(" fields, but a record has ");
                r.append(decimal_string(*expected_len).as_str());
                r.append(" fields");
                r
            },
            DictError::LanguageCodeNotFound => "Language code not found".to_owned(),
            DictError::FileOpen { path, cause } => {
                let mut r = "Could not open dictionary file at ".to_owned();
                r.append(quote(path.as_str()).as_str());
                r.append(": ");
                r.append(cause.as_str());
                r
            },
            DictError::Io { cause } => cause.clone(),
            DictError::Regex(e) => regex_error_text(e),
        }
    }
}

} // verus!
