//! Decoding of the HTML character references in the phrases of a record.

use vstd::prelude::*;
use crate::error::{DictError, DictResult};
use crate::parse::raw_csv::{RawDictEntry, RecordView};

verus! {

/// What `htmlescape::decode_html` returns for a text with these characters:
/// the decoded text, or nothing where it reports an error.
pub uninterp spec fn html_decoded(input: Seq<char>) -> Option<Seq<char>>;

/// Calls `htmlescape::decode_html`, which replaces named and numeric
/// character references by their characters and fails on a malformed or
/// unknown one. The outcome depends on the input alone. The decoder copies
/// every character outside a reference, and a reference starts with `&`: a
/// text without `&` comes back unchanged.
#[verifier::external_body]
fn decode_html(input: &str) -> (r: Option<String>)
    ensures
        match r {
            Some(text) => html_decoded(input@) == Some(text@),
            None => html_decoded(input@) is None,
        },
        !input@.contains('&') ==> r is Some && r.unwrap()@ == input@,
{
    htmlescape::decode_html(input).ok()
}

/// The decoded text where `input` can be decoded, and `input` itself where
/// it cannot.
pub open spec fn decoded_or_same(input: Seq<char>) -> Seq<char> {
    match html_decoded(input) {
        Some(text) => text,
        None => input,
    }
}

/// Decodes the character references in `input`.
///
/// Fails with `HtmlDecode`, and `input`, where a reference in it is
/// malformed or not known. A text that holds no `&` holds no reference: it
/// is decoded to itself.
pub fn html_decode(input: &str) -> (r: DictResult<String>)
    ensures
        match r {
            Ok(text) => html_decoded(input@) == Some(text@),
            Err(DictError::HtmlDecode { input: given }) => {
                &&& html_decoded(input@) is None
                &&& given@ == input@
            },
            Err(_) => false,
        },
        !input@.contains('&') ==> (r matches Ok(text) && text@ == input@),
{
    match decode_html(input) {
        Some(text) => Ok(text),
        None => Err(DictError::HtmlDecode { input: input.to_owned() }),
    }
}

/// Decodes the character references in `input`. A text that cannot be
/// decoded is handed back as it is.
///
/// A text that holds no `&` is plain: it comes back unchanged, so that
/// decoding it once more changes nothing either.
pub fn html_decode_with_fallback(input: &str) -> (r: String)
    ensures
        r@ == decoded_or_same(input@),
        !input@.contains('&') ==> r@ == input@,
{
    match html_decode(input) {
        Ok(text) => text,
        Err(_) => input.to_owned(),
    }
}

/// A record whose phrases have their character references decoded.
#[derive(Clone, Debug)]
pub struct HtmlDecodedDictEntry {
    pub left_word: String,
    pub right_word: String,
    pub word_classes: String,
}

impl View for HtmlDecodedDictEntry {
    type V = RecordView;

    open spec fn view(&self) -> RecordView {
        RecordView {
            left_word: self.left_word@,
            right_word: self.right_word@,
            word_classes: self.word_classes@,
        }
    }
}

/// A record with both phrases decoded; the word classes stay as they are.
pub open spec fn decoded_record(raw: RecordView) -> RecordView {
    RecordView {
        left_word: decoded_or_same(raw.left_word),
        right_word: decoded_or_same(raw.right_word),
        word_classes: raw.word_classes,
    }
}

impl HtmlDecodedDictEntry {
    /// Decodes the two phrases of `raw`.
    pub fn from(raw: &RawDictEntry) -> (r: HtmlDecodedDictEntry)
        ensures
            r@ == decoded_record(raw@),
    {
        HtmlDecodedDictEntry {
            left_word: html_decode_with_fallback(raw.left_word.as_str()),
            right_word: html_decode_with_fallback(raw.right_word.as_str()),
            word_classes: raw.word_classes.clone(),
        }
    }
}

} // verus!
