//! The dictionary, its entries and its queries.

use vstd::prelude::*;
use crate::dict::entry::{entry_views, DictEntry, DictEntryView};
use crate::dict::language::{header_languages, DictLanguagePair, Language, LanguagePairView};
use crate::dict::query::{QueryDirection, QueryType, VecDictQuery};
use crate::dict::read::{entries_of, header_of, DictccReader};
use crate::error::{DictError, DictResult};

pub mod entry;
pub mod grouped;
pub mod language;
pub mod query;
pub mod read;
pub mod render;
pub mod word_class;

verus! {

/// A dictionary: the entries of a dictionary file, in its order, and the two
/// languages of the file.
#[derive(Clone, Debug, PartialEq, Eq)]
pub struct VecDict {
    entries: Vec<DictEntry>,
    languages: DictLanguagePair,
}

/// The mathematical value of a `VecDict`.
pub struct VecDictView {
    pub entries: Seq<DictEntryView>,
    pub languages: LanguagePairView,
}

impl View for VecDict {
    type V = VecDictView;

    closed spec fn view(&self) -> VecDictView {
        VecDictView { entries: entry_views(self.entries@), languages: self.languages@ }
    }
}

impl VecDict {
    /// The dictionary that a dictionary file with the text `content` holds.
    ///
    /// The header names the languages. Each record behind it gives one
    /// entry: its phrases are decoded and parsed, its word classes read. A
    /// line that is no record gives none, and does not stop the reading. In
    /// every entry, the word count of a side is the number of bare words and
    /// optional parts of its phrase, and its search key their lowercase,
    /// single-space join.
    ///
    /// Fails with `LanguageCodeNotFound` where the header names no pair of
    /// languages.
    pub fn create(content: &str) -> (r: DictResult<VecDict>)
        ensures
            match r {
                Ok(dict) => {
                    &&& header_languages(header_of(content@)) == Some(dict@.languages)
                    &&& dict@.entries == entries_of(content@)
                    &&& forall|i: int|
                        0 <= i < dict@.entries.len() ==> (#[trigger] dict@.entries[i]).well_formed()
                },
                Err(DictError::LanguageCodeNotFound) => header_languages(header_of(content@))
                    is None,
                Err(_) => false,
            },
    {
        match DictccReader::new(content) {
            Ok((reader, languages)) => Ok(VecDict { entries: reader.entries(), languages }),
            Err(e) => Err(e),
        }
    }

    /// The entries of the dictionary, in the order of the file.
    pub fn get_entries(&self) -> (r: &[DictEntry])
        ensures
            entry_views(r@) == self@.entries,
    {
        self.entries.as_slice()
    }

    /// The language of the left column.
    pub fn get_left_language(&self) -> (r: &Language)
        ensures
            r@ == self@.languages.left,
    {
        &self.languages.left_language
    }

    /// The language of the right column.
    pub fn get_right_language(&self) -> (r: &Language)
        ensures
            r@ == self@.languages.right,
    {
        &self.languages.right_language
    }

    /// The two languages of the dictionary.
    pub fn language_pair(&self) -> (r: &DictLanguagePair)
        ensures
            r@ == self@.languages,
    {
        &self.languages
    }

    /// A query for `query_term` on this dictionary: for a whole word, in
    /// both directions.
    pub fn query<'a, 'b>(&'a self, query_term: &'b str) -> (r: VecDictQuery<'a, 'b>)
        ensures
            r.dict == self,
            r.query_term == query_term,
            r.query_type == QueryType::Word,
            r.query_direction == QueryDirection::Bidirectional,
    {
        VecDictQuery {
            dict: self,
            query_term,
            query_type: QueryType::Word,
            query_direction: QueryDirection::Bidirectional,
        }
    }
}

} // verus!
