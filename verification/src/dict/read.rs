//! Reading a dictionary file, record by record.

use vstd::prelude::*;
use vstd::string::StringExecFns;
use crate::dict::entry::{entry_of_record, entry_views, DictEntry, DictEntryView};
use crate::dict::language::{header_languages, DictLanguagePair};
use crate::error::{DictError, DictResult};
use crate::parse::html::HtmlDecodedDictEntry;
use crate::parse::raw_csv::{
    data_lines, lines_of, read_lines, read_records, record_views, records_in, records_of,
    RawDictEntry, RecordView,
};
use crate::parse::word_ast::WordNodesDictEntry;
use crate::text::{string_from, texts_of};

verus! {

/// The name under which a dictionary is kept in a store.
#[derive(Clone, Debug, PartialEq, Eq)]
pub struct DictId {
    id: String,
}

impl View for DictId {
    type V = Seq<char>;

    closed spec fn view(&self) -> Seq<char> {
        self.id@
    }
}

/// The name for a dictionary with the languages `languages`: `entries_`
/// and the two codes with an underscore between them.
pub open spec fn id_of(languages: &DictLanguagePair) -> Seq<char> {
    "entries_"@ + languages.name()
}

impl DictId {
    /// The name for a dictionary with the languages `languages`.
    pub fn from(languages: &DictLanguagePair) -> (r: DictId)
        ensures
            r@ == id_of(languages),
    {
        let mut id = "entries_".to_owned();
        id.append(languages.to_string().as_str());
        DictId { id }
    }

    /// The name as text.
    pub fn as_str(&self) -> (r: &str)
        ensures
            r@ == self@,
    {
        self.id.as_str()
    }
}

/// What is known of a dictionary file besides its entries.
#[derive(Clone, Debug, PartialEq, Eq)]
pub struct DictccMetadata {
    /// The two languages of the file.
    pub languages: DictLanguagePair,
    /// The path of the file.
    pub path: String,
    /// The name under which the dictionary is kept in a store.
    pub dict_id: DictId,
}

impl DictccMetadata {
    /// The metadata of a dictionary file at `path` with the languages
    /// `languages`.
    pub fn new(languages: DictLanguagePair, path: String) -> (r: DictccMetadata)
        ensures
            r.languages == languages,
            r.path == path,
            r.dict_id@ == id_of(&languages),
    {
        DictccMetadata { dict_id: DictId::from(&languages), languages, path }
    }
}

/// The header of a dictionary file: its first line.
pub open spec fn header_of(content: Seq<char>) -> Seq<char> {
    lines_of(content)[0]
}

/// The entries that a dictionary file holds: one for each of its records,
/// in order.
pub open spec fn entries_of(content: Seq<char>) -> Seq<DictEntryView> {
    records_of(content).map_values(|record: RecordView| entry_of_record(record))
}

/// A reader of a dictionary file.
#[derive(Debug)]
pub struct DictccReader {
    lines: Vec<Vec<char>>,
}

impl DictccReader {
    /// The text of the file that is read.
    pub closed spec fn content(&self) -> Seq<Seq<char>> {
        texts_of(self.lines@)
    }

    /// A reader of the dictionary file with the text `content`, and the
    /// languages that its header names.
    ///
    /// Fails with `LanguageCodeNotFound` where the header names no pair of
    /// languages.
    pub fn new(content: &str) -> (r: DictResult<(DictccReader, DictLanguagePair)>)
        ensures
            match r {
                Ok((reader, languages)) => {
                    &&& reader.content() == lines_of(content@)
                    &&& header_languages(header_of(content@)) == Some(languages@)
                },
                Err(DictError::LanguageCodeNotFound) => header_languages(header_of(content@))
                    is None,
                Err(_) => false,
            },
    {
        let lines = read_lines(content);
        assert(texts_of(lines@).len() == lines@.len());
        assert(lines_of(content@).len() >= 1);
        let header = string_from(&lines[0]);
        assert(header@ == header_of(content@));
        match DictLanguagePair::from_header(header.as_str()) {
            Ok(languages) => Ok((DictccReader { lines }, languages)),
            Err(e) => Err(e),
        }
    }

    /// The records of the file, in order. Comments, the header and lines
    /// that do not have three fields are passed over.
    pub fn raw_entries(&self) -> (r: Vec<RawDictEntry>)
        ensures
            record_views(r@) == records_in(data_lines(self.content())),
    {
        read_records(&self.lines)
    }

    /// The entries of the file, in order: one for each record. The phrases
    /// of a record are decoded and parsed, and its word classes read.
    pub fn entries(&self) -> (r: Vec<DictEntry>)
        ensures
            entry_views(r@) == records_in(data_lines(self.content())).map_values(
                |record: RecordView| entry_of_record(record),
            ),
            forall|i: int| 0 <= i < r@.len() ==> (#[trigger] entry_views(r@)[i]).well_formed(),
    {
        let records = self.raw_entries();
        let ghost all = record_views(records@);
        let ghost make = |record: RecordView| entry_of_record(record);
        let mut entries: Vec<DictEntry> = Vec::new();
        let mut i: usize = 0;
        while i < records.len()
            invariant
                i <= records.len(),
                all == record_views(records@),
                make == |record: RecordView| entry_of_record(record),
                entry_views(entries@) == all.take(i as int).map_values(make),
                forall|j: int|
                    0 <= j < entries@.len() ==> (#[trigger] entry_views(entries@)[j]).well_formed(),
            decreases records.len() - i,
        {
            let entry = entry_from(&records[i]);
            let ghost before = entries@;
            entries.push(entry);
            proof {
                assert(entry_views(entries@) =~= entry_views(before).push(entry@));
                assert(all.take(i + 1).map_values(make) =~= all.take(i as int).map_values(
                    make,
                ).push(make(all[i as int])));
                assert forall|j: int| 0 <= j < entries@.len() implies (#[trigger] entry_views(
                    entries@,
                )[j]).well_formed() by {
                    if j < before.len() {
                        assert(entry_views(entries@)[j] == entry_views(before)[j]);
                    }
                }
            }
            i += 1;
        }
        assert(all.take(records.len() as int) =~= all);
        entries
    }
}

/// The entry that a record makes: its phrases are decoded and parsed, a
/// phrase that does not parse is taken as one bare word, and its word
/// classes are read.
pub fn entry_from(record: &RawDictEntry) -> (r: DictEntry)
    ensures
        r@ == entry_of_record(record@),
        r@.well_formed(),
{
    let decoded = HtmlDecodedDictEntry::from(record);
    let nodes = WordNodesDictEntry::from(&decoded);
    DictEntry::from(nodes)
}

} // verus!
