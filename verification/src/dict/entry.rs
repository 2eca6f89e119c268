//! The entries of a dictionary.

use vstd::prelude::*;
use crate::dict::word_class::{word_classes_of, WordClass};
use crate::parse::html::decoded_record;
use crate::parse::raw_csv::RecordView;
use crate::parse::word_ast::{
    acronyms_of, comments_of, counted_words, genders_of, indexed_word_of, optional_word_of,
    parsed_record, phrase_text, plain_word_of, NodeView, NodesEntryView, WordNodes,
    WordNodesDictEntry,
};
use crate::text::views_of;

verus! {

/// One side of an entry: a phrase and what is derived from it for searching
/// and grouping.
#[derive(Clone, Debug, PartialEq, Eq)]
pub struct DictWord {
    /// The search key: the bare words and optional parts of the phrase in
    /// lower case, with one space between each two neighbours.
    pub indexed_word: String,
    /// The phrase.
    pub word_nodes: WordNodes,
    /// The number of bare words and optional parts of the phrase.
    pub word_count: usize,
}

/// The mathematical value of a `DictWord`.
pub struct DictWordView {
    pub indexed_word: Seq<char>,
    pub word_nodes: Seq<NodeView>,
    pub word_count: nat,
}

impl View for DictWord {
    type V = DictWordView;

    open spec fn view(&self) -> DictWordView {
        DictWordView {
            indexed_word: self.indexed_word@,
            word_nodes: self.word_nodes@,
            word_count: self.word_count as nat,
        }
    }
}

/// The side of an entry that the phrase `nodes` makes.
pub open spec fn word_of(nodes: Seq<NodeView>) -> DictWordView {
    DictWordView {
        indexed_word: indexed_word_of(nodes),
        word_nodes: nodes,
        word_count: counted_words(nodes),
    }
}

impl DictWordView {
    /// Whether the search key and the word count are those of the phrase.
    pub open spec fn well_formed(self) -> bool {
        self == word_of(self.word_nodes)
    }
}

impl DictWord {
    /// The side of an entry that the phrase `word_nodes` makes: its search
    /// key is the lowercase, single-space join of the bare words and optional
    /// parts of the phrase, and its word count is their number.
    pub fn from(word_nodes: WordNodes) -> (r: DictWord)
        ensures
            r@ == word_of(word_nodes@),
            r@.well_formed(),
    {
        DictWord {
            indexed_word: word_nodes.build_indexed_word(),
            word_count: word_nodes.count_words(),
            word_nodes,
        }
    }

    /// A copy of the word.
    pub fn duplicate(&self) -> (r: DictWord)
        ensures
            r@ == self@,
    {
        DictWord {
            indexed_word: self.indexed_word.clone(),
            word_nodes: self.word_nodes.duplicate(),
            word_count: self.word_count,
        }
    }

    /// The phrase in the bracket syntax.
    pub fn to_string(&self) -> (r: String)
        ensures
            r@ == phrase_text(self@.word_nodes),
    {
        self.word_nodes.to_string()
    }

    /// The items of the acronym lists of the phrase, `<a, b>`, in order.
    pub fn acronyms(&self) -> (r: Vec<String>)
        ensures
            views_of(r@) == acronyms_of(self@.word_nodes),
    {
        self.word_nodes.build_acronyms()
    }

    /// The visible comments of the phrase, `[a]`, in order.
    pub fn comments(&self) -> (r: Vec<String>)
        ensures
            views_of(r@) == comments_of(self@.word_nodes),
    {
        self.word_nodes.build_comments()
    }

    /// The gender tags of the phrase, `{f}`, in order.
    pub fn genders(&self) -> (r: Vec<String>)
        ensures
            views_of(r@) == genders_of(self@.word_nodes),
    {
        self.word_nodes.build_genders()
    }

    /// The bare words and the optional parts of the phrase, the latter in
    /// their brackets: `(a) foo`.
    pub fn word_with_optional_parts(&self) -> (r: String)
        ensures
            r@ == optional_word_of(self@.word_nodes),
    {
        self.word_nodes.build_word_with_optional_parts()
    }

    /// The bare words of the phrase: `foo`.
    pub fn plain_word(&self) -> (r: String)
        ensures
            r@ == plain_word_of(self@.word_nodes),
    {
        self.word_nodes.build_plain_word()
    }
}

/// A pair of translations and its word classes.
#[derive(Clone, Debug, PartialEq, Eq)]
pub struct DictEntry {
    /// The word of the left language.
    pub left_word: DictWord,
    /// The word of the right language.
    pub right_word: DictWord,
    /// The word classes, in the order of the source; one that is named twice
    /// stands twice.
    pub word_classes: Vec<WordClass>,
}

/// The mathematical value of a `DictEntry`.
pub struct DictEntryView {
    pub left_word: DictWordView,
    pub right_word: DictWordView,
    pub word_classes: Seq<WordClass>,
}

impl View for DictEntry {
    type V = DictEntryView;

    open spec fn view(&self) -> DictEntryView {
        DictEntryView {
            left_word: self.left_word@,
            right_word: self.right_word@,
            word_classes: self.word_classes@,
        }
    }
}

/// The views of a sequence of entries.
pub open spec fn entry_views(v: Seq<DictEntry>) -> Seq<DictEntryView> {
    v.map_values(|e: DictEntry| e@)
}

/// The entry that a parsed record makes.
pub open spec fn entry_of_nodes(nodes: NodesEntryView) -> DictEntryView {
    DictEntryView {
        left_word: word_of(nodes.left),
        right_word: word_of(nodes.right),
        word_classes: word_classes_of(nodes.word_classes),
    }
}

/// The entry that a record of a dictionary file makes: its phrases are
/// decoded and parsed, and its word classes read.
pub open spec fn entry_of_record(record: RecordView) -> DictEntryView {
    entry_of_nodes(parsed_record(decoded_record(record)))
}

impl DictEntryView {
    /// Whether both sides are well formed.
    pub open spec fn well_formed(self) -> bool {
        self.left_word.well_formed() && self.right_word.well_formed()
    }

    /// The larger of the word counts of the two sides.
    pub open spec fn max_word_count(self) -> nat {
        if self.left_word.word_count >= self.right_word.word_count {
            self.left_word.word_count
        } else {
            self.right_word.word_count
        }
    }
}

impl DictEntry {
    /// The entry that a parsed record makes. On each side, the word count is
    /// the number of bare words and optional parts of the phrase, and the
    /// search key their lowercase, single-space join.
    pub fn from(nodes: WordNodesDictEntry) -> (r: DictEntry)
        ensures
            r@ == entry_of_nodes(nodes@),
            r@.well_formed(),
    {
        let word_classes = WordClass::with_fallback_from(nodes.word_classes.as_str());
        DictEntry {
            left_word: DictWord::from(nodes.left_word_nodes),
            right_word: DictWord::from(nodes.right_word_nodes),
            word_classes,
        }
    }

    /// A copy of the entry.
    pub fn duplicate(&self) -> (r: DictEntry)
        ensures
            r@ == self@,
    {
        let mut word_classes: Vec<WordClass> = Vec::new();
        let mut i: usize = 0;
        while i < self.word_classes.len()
            invariant
                i <= self.word_classes.len(),
                word_classes@ == self.word_classes@.take(i as int),
            decreases self.word_classes.len() - i,
        {
            word_classes.push(self.word_classes[i]);
            assert(self.word_classes@.take(i + 1) =~= self.word_classes@.take(i as int).push(
                self.word_classes@[i as int],
            ));
            i += 1;
        }
        assert(self.word_classes@.take(self.word_classes.len() as int) =~= self.word_classes@);
        DictEntry {
            left_word: self.left_word.duplicate(),
            right_word: self.right_word.duplicate(),
            word_classes,
        }
    }

    /// The larger of the word counts of the two sides.
    pub fn get_max_word_count(&self) -> (r: usize)
        ensures
            r == self@.max_word_count(),
    {
        if self.left_word.word_count >= self.right_word.word_count {
            self.left_word.word_count
        } else {
            self.right_word.word_count
        }
    }
}

} // verus!
