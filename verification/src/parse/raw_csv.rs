//! The records of a dictionary file.
//!
//! A file is a row of lines that end in a line feed; a carriage return before
//! the line feed is not part of the line. The first line is the header. A
//! line that starts with `#` is a comment. Every other line is a record, with
//! tabs between its fields. A record has three fields: the left phrase, the
//! right phrase and the word classes. There is no quoting.

use vstd::prelude::*;
use crate::error::{DictError, DictResult};
use crate::text::{chars_of, cut, cut_chars, string_from, texts_of};

verus! {

/// The number of fields of a record.
pub const RECORD_FIELDS: usize = 3;

/// A record as it stands in the file.
#[derive(Clone, Debug)]
pub struct RawDictEntry {
    pub left_word: String,
    pub right_word: String,
    pub word_classes: String,
}

/// The mathematical value of a record.
pub struct RecordView {
    pub left_word: Seq<char>,
    pub right_word: Seq<char>,
    pub word_classes: Seq<char>,
}

impl View for RawDictEntry {
    type V = RecordView;

    open spec fn view(&self) -> RecordView {
        RecordView {
            left_word: self.left_word@,
            right_word: self.right_word@,
            word_classes: self.word_classes@,
        }
    }
}

/// The lines of a file: the text cut at each line feed, each piece without
/// the carriage return at its end, if it has one.
pub open spec fn lines_of(text: Seq<char>) -> Seq<Seq<char>> {
    cut(text, '\n').map_values(|line: Seq<char>| without_return(line))
}

/// `line` without the carriage return at its end, if it has one.
pub open spec fn without_return(line: Seq<char>) -> Seq<char> {
    if line.len() > 0 && line.last() == '\r' {
        line.drop_last()
    } else {
        line
    }
}

/// Whether `line` is a comment.
pub open spec fn is_comment(line: Seq<char>) -> bool {
    line.len() > 0 && line[0] == '#'
}

/// The fields of a line.
pub open spec fn fields_of(line: Seq<char>) -> Seq<Seq<char>> {
    cut(line, '\t')
}

/// Whether `line` holds a record: it is no comment and has three fields.
pub open spec fn is_record(line: Seq<char>) -> bool {
    !is_comment(line) && fields_of(line).len() == RECORD_FIELDS
}

/// The record that `line` holds, where it holds one.
pub open spec fn record_of(line: Seq<char>) -> RecordView {
    RecordView {
        left_word: fields_of(line)[0],
        right_word: fields_of(line)[1],
        word_classes: fields_of(line)[2],
    }
}

/// The records among `lines`, in order.
pub open spec fn records_in(lines: Seq<Seq<char>>) -> Seq<RecordView> {
    lines.filter(|line: Seq<char>| is_record(line)).map_values(|line: Seq<char>| record_of(line))
}

/// The lines of a file behind its header, which is the first line.
pub open spec fn data_lines(lines: Seq<Seq<char>>) -> Seq<Seq<char>> {
    if lines.len() > 0 {
        lines.drop_first()
    } else {
        lines
    }
}

/// The records of a file: those among its lines behind the header.
pub open spec fn records_of(text: Seq<char>) -> Seq<RecordView> {
    records_in(data_lines(lines_of(text)))
}

/// The views of a sequence of records.
pub open spec fn record_views(v: Seq<RawDictEntry>) -> Seq<RecordView> {
    v.map_values(|r: RawDictEntry| r@)
}

/// A line that holds no record adds nothing to the records of a file, and
/// takes nothing from the records before and behind it.
pub proof fn lemma_other_lines_dropped(
    before: Seq<Seq<char>>,
    line: Seq<char>,
    behind: Seq<Seq<char>>,
)
    requires
        !is_record(line),
    ensures
        records_in(before + seq![line] + behind) == records_in(before + behind),
{
    let keep = |l: Seq<char>| is_record(l);
    Seq::filter_distributes_over_add(before, seq![line], keep);
    Seq::filter_distributes_over_add(before + seq![line], behind, keep);
    Seq::filter_distributes_over_add(before, behind, keep);
    assert(seq![line].filter(keep) =~= Seq::<Seq<char>>::empty()) by {
        Seq::<Seq<char>>::empty().lemma_filter_push(line, keep);
        assert(seq![line] =~= Seq::<Seq<char>>::empty().push(line));
    }
    assert((before + seq![line] + behind).filter(keep) =~= (before + behind).filter(keep));
}

/// The record that a line holds.
///
/// Fails with `IncompleteEntry` where the line does not have three fields.
pub fn parse_record(line: &Vec<char>) -> (r: DictResult<RawDictEntry>)
    ensures
        match r {
            Ok(record) => fields_of(line@).len() == RECORD_FIELDS && record@ == record_of(line@),
            Err(DictError::IncompleteEntry { expected_len, len }) => {
                &&& fields_of(line@).len() != RECORD_FIELDS
                &&& expected_len == RECORD_FIELDS
                &&& len == fields_of(line@).len()
            },
            Err(_) => false,
        },
{
    let fields = cut_chars(line, '\t');
    assert(texts_of(fields@).len() == fields@.len());
    if fields.len() == RECORD_FIELDS {
        assert(texts_of(fields@)[0] == fields@[0]@);
        assert(texts_of(fields@)[1] == fields@[1]@);
        assert(texts_of(fields@)[2] == fields@[2]@);
        Ok(
            RawDictEntry {
                left_word: string_from(&fields[0]),
                right_word: string_from(&fields[1]),
                word_classes: string_from(&fields[2]),
            },
        )
    } else {
        Err(DictError::IncompleteEntry { expected_len: RECORD_FIELDS, len: fields.len() })
    }
}

/// Whether a record is kept: all are, but those that failed for their
/// number of fields.
pub fn incomplete_records_filter(record: &DictResult<RawDictEntry>) -> (keep: bool)
    ensures
        keep == !(record matches Err(DictError::IncompleteEntry { .. })),
{
    match record {
        Err(DictError::IncompleteEntry { .. }) => false,
        _ => true,
    }
}

/// Whether `line` is a comment: it is where it starts with `#`.
pub fn is_comment_line(line: &Vec<char>) -> (r: bool)
    ensures
        r == is_comment(line@),
{
    line.len() > 0 && line[0] == '#'
}

/// `line` without the carriage return at its end, if it has one.
fn strip_return(line: &mut Vec<char>)
    ensures
        final(line)@ == without_return(old(line)@),
{
    if line.len() > 0 && line[line.len() - 1] == '\r' {
        line.pop();
    }
}

/// The lines of a file.
pub fn read_lines(content: &str) -> (r: Vec<Vec<char>>)
    ensures
        texts_of(r@) == lines_of(content@),
{
    let cs = chars_of(content);
    let mut pieces = cut_chars(&cs, '\n');
    let ghost cutted = texts_of(pieces@);
    let mut i: usize = 0;
    while i < pieces.len()
        invariant
            i <= pieces.len(),
            pieces.len() == cutted.len(),
            forall|j: int| 0 <= j < i ==> (#[trigger] pieces@[j])@ == without_return(cutted[j]),
            forall|j: int| i <= j < pieces.len() ==> (#[trigger] pieces@[j])@ == cutted[j],
        decreases pieces.len() - i,
    {
        let mut line: Vec<char> = Vec::new();
        std::mem::swap(&mut line, &mut pieces[i]);
        strip_return(&mut line);
        pieces[i] = line;
        i += 1;
    }
    assert(texts_of(pieces@) =~= lines_of(content@));
    pieces
}

/// The records among the lines of a file behind its header, in order.
/// Comments and lines that do not have three fields are passed over.
pub fn read_records(lines: &Vec<Vec<char>>) -> (r: Vec<RawDictEntry>)
    ensures
        record_views(r@) == records_in(data_lines(texts_of(lines@))),
{
    let ghost all = texts_of(lines@);
    let ghost keep = |l: Seq<char>| is_record(l);
    let ghost make = |l: Seq<char>| record_of(l);
    let mut r: Vec<RawDictEntry> = Vec::new();
    if lines.len() == 0 {
        assert(all =~= Seq::<Seq<char>>::empty());
        assert(all.filter(keep) =~= Seq::<Seq<char>>::empty());
        assert(record_views(r@) =~= records_in(data_lines(all)));
        return r;
    }
    let ghost data = all.drop_first();
    let mut i: usize = 1;
    while i < lines.len()
        invariant
            1 <= i <= lines.len(),
            all == texts_of(lines@),
            data == all.drop_first(),
            keep == |l: Seq<char>| is_record(l),
            make == |l: Seq<char>| record_of(l),
            record_views(r@) == data.take(i - 1).filter(keep).map_values(make),
        decreases lines.len() - i,
    {
        let line = &lines[i];
        proof {
            assert(data.take(i as int) =~= data.take(i - 1).push(data[i - 1]));
            data.take(i - 1).lemma_filter_push(data[i - 1], keep);
            assert(data[i - 1] == line@);
        }
        if !is_comment_line(line) {
            let record = parse_record(line);
            if incomplete_records_filter(&record) {
                match record {
                    Ok(entry) => {
                        let ghost before = r@;
                        r.push(entry);
                        assert(record_views(r@) =~= record_views(before).push(record_of(line@)));
                        assert(data.take(i - 1).filter(keep).push(line@).map_values(make)
                            =~= data.take(i - 1).filter(keep).map_values(make).push(
                            record_of(line@),
                        ));
                    },
                    Err(_) => {},
                }
            }
        }
        i += 1;
    }
    assert(data.take(lines.len() - 1) =~= data);
    r
}

} // verus!
