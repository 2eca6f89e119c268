//! Queries on a dictionary.
//!
//! A query holds a term, a type and a direction. Its type says how the term
//! is made into a pattern; its direction says which side of an entry the
//! pattern is matched against. The pattern is a regular expression that is
//! matched without regard to case, anywhere in the search key of a side.

use vstd::prelude::*;
use vstd::string::StringExecFns;
use crate::dict::entry::{entry_views, DictEntry, DictEntryView};
use crate::dict::language::Language;
use crate::dict::VecDict;
use crate::error::{DictError, DictResult};
use crate::text::{lowercase, same_text, to_lowercase};

verus! {

/// A compiled regular expression of the `regex` crate.
#[verifier::external_type_specification]
#[verifier::external_body]
pub struct ExRegex(regex::Regex);

/// The kind of match that a query asks for.
#[derive(Clone, Copy, Debug, PartialEq, Eq, Structural)]
pub enum QueryType {
    /// The term is all of the search key.
    Exact,
    /// The term is a regular expression that matches all of the search key.
    Regex,
    /// The term is a whole word of the search key.
    Word,
}

/// The side of an entry that a query looks at.
#[derive(Clone, Copy, Debug, PartialEq, Eq, Structural)]
pub enum QueryDirection {
    /// Look at the left language, for translations into the right one.
    ToRight,
    /// Look at the right language, for translations into the left one.
    ToLeft,
    /// Look at both languages.
    Bidirectional,
}

impl Default for QueryType {
    fn default() -> (r: QueryType)
        ensures
            r == QueryType::Word,
    {
        QueryType::Word
    }
}

impl Default for QueryDirection {
    fn default() -> (r: QueryDirection)
        ensures
            r == QueryDirection::Bidirectional,
    {
        QueryDirection::Bidirectional
    }
}

/// The query type that a name, in upper or lower case, stands for.
pub open spec fn query_type_of(name: Seq<char>) -> Option<QueryType> {
    if name == "e"@ || name == "exact"@ {
        Some(QueryType::Exact)
    } else if name == "r"@ || name == "regex"@ {
        Some(QueryType::Regex)
    } else if name == "w"@ || name == "word"@ {
        Some(QueryType::Word)
    } else {
        None
    }
}

impl QueryType {
    /// The query type that `s` stands for: `e` or `exact`, `r` or `regex`,
    /// `w` or `word`, in upper or lower case.
    ///
    /// Fails with `UnknownQueryType`, and `s` in lower case, for any other
    /// name.
    pub fn from_str(s: &str) -> (r: DictResult<QueryType>)
        ensures
            match r {
                Ok(query_type) => query_type_of(lowercase(s@)) == Some(query_type),
                Err(DictError::UnknownQueryType { query_type }) => {
                    &&& query_type_of(lowercase(s@)) is None
                    &&& query_type@ == lowercase(s@)
                },
                Err(_) => false,
            },
    {
        let lower = to_lowercase(s);
        let name = lower.as_str();
        if same_text(name, "e") || same_text(name, "exact") {
            Ok(QueryType::Exact)
        } else if same_text(name, "r") || same_text(name, "regex") {
            Ok(QueryType::Regex)
        } else if same_text(name, "w") || same_text(name, "word") {
            Ok(QueryType::Word)
        } else {
            Err(DictError::UnknownQueryType { query_type: lower })
        }
    }
}

/// Whether `c` has a meaning of its own in a regular expression.
pub open spec fn is_meta_character(c: char) -> bool {
    c == '\\' || c == '.' || c == '+' || c == '*' || c == '?' || c == '(' || c == ')' || c == '|'
        || c == '[' || c == ']' || c == '{' || c == '}' || c == '^' || c == '$' || c == '#' || c
        == '&' || c == '-' || c == '~'
}

/// `text` with a backslash before each character that has a meaning of its
/// own in a regular expression.
pub open spec fn escaped(text: Seq<char>) -> Seq<char>
    decreases text.len(),
{
    if text.len() == 0 {
        Seq::empty()
    } else if is_meta_character(text.last()) {
        escaped(text.drop_last()).push('\\').push(text.last())
    } else {
        escaped(text.drop_last()).push(text.last())
    }
}

/// Calls `regex::escape`, which copies `text` and puts a backslash before
/// each of the characters `\ . + * ? ( ) | [ ] { } ^ $ # & - ~`.
#[verifier::external_body]
fn escape(text: &str) -> (r: String)
    ensures
        r@ == escaped(text@),
{
    regex::escape(text)
}

/// Whether the regular expression `pattern`, compiled by the `regex` crate
/// to match without regard to case, has a match somewhere in `text`.
pub uninterp spec fn pattern_matches(pattern: Seq<char>, text: Seq<char>) -> bool;

/// Whether the `regex` crate compiles the regular expression `pattern`, to
/// match without regard to case and with the limits that its builder starts
/// with: it does where the pattern is valid and its program not too big.
pub uninterp spec fn pattern_compiles(pattern: Seq<char>) -> bool;

/// A pattern together with the regular expression compiled from it. Only
/// `Matcher::new` makes one, so that the regular expression of a matcher is
/// always the one compiled from its pattern.
pub struct Matcher {
    pattern: String,
    regex: regex::Regex,
}

impl Matcher {
    /// The pattern that the matcher was compiled from.
    pub closed spec fn pattern(&self) -> Seq<char> {
        self.pattern@
    }

    /// Calls `regex::RegexBuilder::new`, `case_insensitive(true)` and
    /// `build`: the pattern compiled to match without regard to case, or
    /// the error of the `regex` crate where the pattern is not valid or its
    /// program too big. Which of the two comes back depends on the pattern
    /// alone, as the builder is used with the settings that it starts with.
    /// The matcher keeps the pattern.
    #[verifier::external_body]
    fn compile(pattern: &str) -> (r: Result<Matcher, regex::Error>)
        ensures
            r is Ok <==> pattern_compiles(pattern@),
            r matches Ok(matcher) ==> matcher.pattern() == pattern@,
    {
        regex::RegexBuilder::new(pattern).case_insensitive(true).build().map(
            |regex| Matcher { pattern: pattern.to_string(), regex },
        )
    }

    /// Calls `regex::Regex::is_match`: whether the compiled pattern has a
    /// match anywhere in `text`. That depends on the pattern and on `text`
    /// alone.
    #[verifier::external_body]
    fn matches(&self, text: &str) -> (r: bool)
        ensures
            r == pattern_matches(self.pattern(), text@),
    {
        self.regex.is_match(text)
    }

    /// The matcher for `pattern`.
    ///
    /// Fails with `Regex`, and the error of the `regex` crate, where the
    /// pattern does not compile.
    pub fn new(pattern: &str) -> (r: DictResult<Matcher>)
        ensures
            match r {
                Ok(matcher) => pattern_compiles(pattern@) && matcher.pattern() == pattern@,
                Err(DictError::Regex(_)) => !pattern_compiles(pattern@),
                Err(_) => false,
            },
    {
        match Matcher::compile(pattern) {
            Ok(matcher) => Ok(matcher),
            Err(e) => Err(DictError::Regex(e)),
        }
    }

    /// Whether the pattern has a match in `text`.
    pub fn is_match(&self, text: &str) -> (r: bool)
        ensures
            r == pattern_matches(self.pattern(), text@),
    {
        self.matches(text)
    }

    /// Whether `entry` is a hit for a query in `direction`: to the right, the
    /// search key of its left word is matched; to the left, that of its
    /// right word; in both directions, either.
    pub fn hits(&self, entry: &DictEntry, direction: QueryDirection) -> (r: bool)
        ensures
            r == is_hit(self.pattern(), direction, entry@),
    {
        match direction {
            QueryDirection::ToRight => self.matches(entry.left_word.indexed_word.as_str()),
            QueryDirection::ToLeft => self.matches(entry.right_word.indexed_word.as_str()),
            QueryDirection::Bidirectional => self.matches(entry.left_word.indexed_word.as_str())
                || self.matches(entry.right_word.indexed_word.as_str()),
        }
    }
}

/// The pattern that a query of type `query_type` makes of `term`.
///
/// For a word: the term as it is written, between the start of the text, a
/// whitespace character or a hyphen, and the end of the text, a whitespace
/// character or a hyphen. For an exact query: the term as it is written,
/// from the start of the text to its end. For a regular expression: the term
/// as a pattern, from the start of the text to its end.
pub open spec fn pattern_of(query_type: QueryType, term: Seq<char>) -> Seq<char> {
    match query_type {
        QueryType::Word => "(^|\\s|-)"@ + escaped(term) + "($|\\s|-)"@,
        QueryType::Exact => "^"@ + escaped(term) + "$"@,
        QueryType::Regex => "^"@ + term + "$"@,
    }
}

/// The pattern that a query of type `query_type` makes of `term`.
pub fn build_pattern(query_type: QueryType, term: &str) -> (r: String)
    ensures
        r@ == pattern_of(query_type, term@),
{
    match query_type {
        QueryType::Word => {
            let mut r = "(^|\\s|-)".to_owned();
            r.append(escape(term).as_str());
            r.append("($|\\s|-)");
            r
        },
        QueryType::Exact => {
            let mut r = "^".to_owned();
            r.append(escape(term).as_str());
            r.append("$");
            r
        },
        QueryType::Regex => {
            let mut r = "^".to_owned();
            r.append(term);
            r.append("$");
            r
        },
    }
}

/// Whether an entry is a hit for `pattern` in `direction`.
pub open spec fn is_hit(pattern: Seq<char>, direction: QueryDirection, entry: DictEntryView)
    -> bool {
    match direction {
        QueryDirection::ToRight => pattern_matches(pattern, entry.left_word.indexed_word),
        QueryDirection::ToLeft => pattern_matches(pattern, entry.right_word.indexed_word),
        QueryDirection::Bidirectional => pattern_matches(pattern, entry.left_word.indexed_word)
            || pattern_matches(pattern, entry.right_word.indexed_word),
    }
}

/// The hits among `entries` for `pattern` in `direction`, in the order of
/// `entries`.
pub open spec fn hits_of(
    entries: Seq<DictEntryView>,
    pattern: Seq<char>,
    direction: QueryDirection,
) -> Seq<DictEntryView> {
    entries.filter(|e: DictEntryView| is_hit(pattern, direction, e))
}

/// What a query of type `query_type` for `term` in `direction` finds among
/// `entries`: the hits for its pattern, in the order of `entries`, where the
/// pattern compiles, and nothing where it does not.
pub open spec fn found(
    entries: Seq<DictEntryView>,
    query_type: QueryType,
    term: Seq<char>,
    direction: QueryDirection,
) -> Option<Seq<DictEntryView>> {
    if pattern_compiles(pattern_of(query_type, term)) {
        Some(hits_of(entries, pattern_of(query_type, term), direction))
    } else {
        None
    }
}

/// The entries that a query found.
#[derive(Clone, Debug, PartialEq, Eq)]
pub struct DictQueryResult {
    /// The hits, in the order of the dictionary.
    pub entries: Vec<DictEntry>,
    /// The direction of the query.
    pub query_direction: QueryDirection,
}

/// The mathematical value of a `DictQueryResult`.
pub struct QueryResultView {
    pub entries: Seq<DictEntryView>,
    pub query_direction: QueryDirection,
}

impl View for DictQueryResult {
    type V = QueryResultView;

    open spec fn view(&self) -> QueryResultView {
        QueryResultView {
            entries: entry_views(self.entries@),
            query_direction: self.query_direction,
        }
    }
}

impl DictQueryResult {
    /// The hits, in the order of the dictionary.
    pub fn entries(&self) -> (r: &[DictEntry])
        ensures
            entry_views(r@) == self@.entries,
    {
        self.entries.as_slice()
    }
}

/// Copies of the hits among `entries` for the pattern of `matcher` in
/// `direction`, in the order of `entries`.
pub fn select(entries: &[DictEntry], matcher: &Matcher, direction: QueryDirection) -> (r:
    DictQueryResult)
    ensures
        r@.entries == hits_of(entry_views(entries@), matcher.pattern(), direction),
        r@.query_direction == direction,
{
    let ghost all = entry_views(entries@);
    let ghost keep = |e: DictEntryView| is_hit(matcher.pattern(), direction, e);
    let mut found: Vec<DictEntry> = Vec::new();
    let mut i: usize = 0;
    while i < entries.len()
        invariant
            i <= entries.len(),
            all == entry_views(entries@),
            keep == |e: DictEntryView| is_hit(matcher.pattern(), direction, e),
            entry_views(found@) == all.take(i as int).filter(keep),
        decreases entries.len() - i,
    {
        proof {
            assert(all.take(i + 1) =~= all.take(i as int).push(all[i as int]));
            all.take(i as int).lemma_filter_push(all[i as int], keep);
        }
        if matcher.hits(&entries[i], direction) {
            let ghost before = found@;
            let copy = entries[i].duplicate();
            found.push(copy);
            assert(entry_views(found@) =~= entry_views(before).push(copy@));
        }
        i += 1;
    }
    assert(all.take(entries.len() as int) =~= all);
    DictQueryResult { entries: found, query_direction: direction }
}

/// A query on a dictionary, before it is run.
#[derive(Debug)]
pub struct VecDictQuery<'a, 'b> {
    pub dict: &'a VecDict,
    pub query_term: &'b str,
    pub query_type: QueryType,
    pub query_direction: QueryDirection,
}

impl<'a, 'b> VecDictQuery<'a, 'b> {
    /// Sets the direction of the query.
    pub fn set_direction(&mut self, query_direction: QueryDirection) -> (r: &mut Self)
        ensures
            *r == (VecDictQuery { query_direction, ..*old(self) }),
            *final(self) == *final(r),
    {
        self.query_direction = query_direction;
        self
    }

    /// Sets the type of the query.
    pub fn set_type(&mut self, query_type: QueryType) -> (r: &mut Self)
        ensures
            *r == (VecDictQuery { query_type, ..*old(self) }),
            *final(self) == *final(r),
    {
        self.query_type = query_type;
        self
    }

    /// The query with another term.
    pub fn set_term<'c>(self, query_term: &'c str) -> (r: VecDictQuery<'a, 'c>)
        ensures
            r.dict == self.dict,
            r.query_term == query_term,
            r.query_type == self.query_type,
            r.query_direction == self.query_direction,
    {
        VecDictQuery {
            dict: self.dict,
            query_term,
            query_type: self.query_type,
            query_direction: self.query_direction,
        }
    }

    /// Sets the direction of the query to the one that goes from
    /// `source_language` to the other language of the dictionary.
    ///
    /// Fails with `InvalidSourceLanguage`, and leaves the query as it is,
    /// where `source_language` is neither language of the dictionary.
    pub fn source_language(&mut self, source_language: &Language) -> (r: DictResult<&mut Self>)
        ensures
            match r {
                Ok(query) => {
                    &&& source_language@ == old(self).dict@.languages.left
                        || source_language@ == old(self).dict@.languages.right
                    &&& *query == (VecDictQuery {
                        query_direction: if source_language@ == old(self).dict@.languages.left {
                            QueryDirection::ToRight
                        } else {
                            QueryDirection::ToLeft
                        },
                        ..*old(self)
                    })
                    &&& *final(self) == *final(query)
                },
                Err(DictError::InvalidSourceLanguage { source_language: given }) => {
                    &&& source_language@ != old(self).dict@.languages.left
                    &&& source_language@ != old(self).dict@.languages.right
                    &&& given@ == source_language@
                    &&& *final(self) == *old(self)
                },
                Err(_) => false,
            },
    {
        match self.dict.language_pair().infer_query_direction(source_language) {
            Ok(direction) => Ok(self.set_direction(direction)),
            Err(e) => Err(e),
        }
    }

    /// Makes the query look for the term as a whole word.
    pub fn word(&mut self) -> (r: &mut Self)
        ensures
            *r == (VecDictQuery { query_type: QueryType::Word, ..*old(self) }),
            *final(self) == *final(r),
    {
        self.set_type(QueryType::Word)
    }

    /// Makes the query look for the term as all of the search key.
    pub fn exact(&mut self) -> (r: &mut Self)
        ensures
            *r == (VecDictQuery { query_type: QueryType::Exact, ..*old(self) }),
            *final(self) == *final(r),
    {
        self.set_type(QueryType::Exact)
    }

    /// Makes the query take the term as a regular expression.
    pub fn regex(&mut self) -> (r: &mut Self)
        ensures
            *r == (VecDictQuery { query_type: QueryType::Regex, ..*old(self) }),
            *final(self) == *final(r),
    {
        self.set_type(QueryType::Regex)
    }

    /// Runs the query. Where the pattern of the query compiles, the result
    /// holds copies of the entries of the dictionary that are hits for the
    /// pattern in the direction of the query, in the order of the
    /// dictionary, and that direction.
    ///
    /// Fails with `Regex` where the pattern does not compile, and only
    /// there.
    pub fn execute(&self) -> (r: DictResult<DictQueryResult>)
        ensures
            match r {
                Ok(result) => {
                    &&& found(
                        self.dict@.entries,
                        self.query_type,
                        self.query_term@,
                        self.query_direction,
                    ) == Some(result@.entries)
                    &&& result@.query_direction == self.query_direction
                },
                Err(DictError::Regex(_)) => found(
                    self.dict@.entries,
                    self.query_type,
                    self.query_term@,
                    self.query_direction,
                ) is None,
                Err(_) => false,
            },
    {
        let pattern = build_pattern(self.query_type, self.query_term);
        match Matcher::new(pattern.as_str()) {
            Ok(matcher) => Ok(select(self.dict.get_entries(), &matcher, self.query_direction)),
            Err(e) => Err(e),
        }
    }
}

/// Filtering by a condition, and then by one that it follows from, is
/// filtering by the second alone.
pub proof fn lemma_filter_twice<A>(s: Seq<A>, wide: spec_fn(A) -> bool, narrow: spec_fn(A) -> bool)
    requires
        forall|a: A| #[trigger] narrow(a) ==> wide(a),
    ensures
        s.filter(wide).filter(narrow) == s.filter(narrow),
    decreases s.len(),
{
    reveal(Seq::filter);
    if s.len() > 0 {
        lemma_filter_twice(s.drop_last(), wide, narrow);
        if wide(s.last()) {
            s.drop_last().filter(wide).lemma_filter_push(s.last(), narrow);
        }
    }
}

/// The hits for a pattern in both directions are the union of the hits to
/// the left and to the right: each of the two is the part of the hits in
/// both directions that is a hit in its direction, in the same order, and
/// every hit in both directions is a hit in one of the two. An entry that is
/// a hit on both sides stands once.
pub proof fn lemma_bidirectional_is_union(entries: Seq<DictEntryView>, pattern: Seq<char>)
    ensures
        hits_of(entries, pattern, QueryDirection::Bidirectional).filter(
            |e: DictEntryView| is_hit(pattern, QueryDirection::ToRight, e),
        ) == hits_of(entries, pattern, QueryDirection::ToRight),
        hits_of(entries, pattern, QueryDirection::Bidirectional).filter(
            |e: DictEntryView| is_hit(pattern, QueryDirection::ToLeft, e),
        ) == hits_of(entries, pattern, QueryDirection::ToLeft),
        forall|i: int|
            0 <= i < hits_of(entries, pattern, QueryDirection::Bidirectional).len() ==> {
                let e = #[trigger] hits_of(entries, pattern, QueryDirection::Bidirectional)[i];
                is_hit(pattern, QueryDirection::ToRight, e) || is_hit(
                    pattern,
                    QueryDirection::ToLeft,
                    e,
                )
            },
        hits_of(entries, pattern, QueryDirection::Bidirectional) == entries.filter(
            |e: DictEntryView|
                is_hit(pattern, QueryDirection::ToRight, e) || is_hit(
                    pattern,
                    QueryDirection::ToLeft,
                    e,
                ),
        ),
{
    let both = |e: DictEntryView| is_hit(pattern, QueryDirection::Bidirectional, e);
    let right = |e: DictEntryView| is_hit(pattern, QueryDirection::ToRight, e);
    let left = |e: DictEntryView| is_hit(pattern, QueryDirection::ToLeft, e);
    let either = |e: DictEntryView|
        is_hit(pattern, QueryDirection::ToRight, e) || is_hit(pattern, QueryDirection::ToLeft, e);
    lemma_filter_twice(entries, both, right);
    lemma_filter_twice(entries, both, left);
    assert forall|i: int| 0 <= i < entries.filter(both).len() implies is_hit(
        pattern,
        QueryDirection::ToRight,
        #[trigger] entries.filter(both)[i],
    ) || is_hit(pattern, QueryDirection::ToLeft, entries.filter(both)[i]) by {
        entries.lemma_filter_pred(both, i);
    }
    assert(both =~= either);
}

/// Queries of one type for one term in the three directions succeed
/// together, and where they succeed, the query in both directions finds the
/// union of what the queries to the left and to the right find: each of the
/// two results is the part of the result for both directions that is a hit
/// in its direction, in the same order, and the result for both directions
/// holds the entries that are a hit to the left or to the right, in the
/// order of the dictionary, each once.
pub proof fn lemma_directions_agree(
    entries: Seq<DictEntryView>,
    query_type: QueryType,
    term: Seq<char>,
)
    ensures
        found(entries, query_type, term, QueryDirection::Bidirectional) is Some <==> found(
            entries,
            query_type,
            term,
            QueryDirection::ToRight,
        ) is Some,
        found(entries, query_type, term, QueryDirection::Bidirectional) is Some <==> found(
            entries,
            query_type,
            term,
            QueryDirection::ToLeft,
        ) is Some,
        found(entries, query_type, term, QueryDirection::Bidirectional) matches Some(both) ==> {
            let pattern = pattern_of(query_type, term);
            &&& found(entries, query_type, term, QueryDirection::ToRight) == Some(
                both.filter(|e: DictEntryView| is_hit(pattern, QueryDirection::ToRight, e)),
            )
            &&& found(entries, query_type, term, QueryDirection::ToLeft) == Some(
                both.filter(|e: DictEntryView| is_hit(pattern, QueryDirection::ToLeft, e)),
            )
            &&& both == entries.filter(
                |e: DictEntryView|
                    is_hit(pattern, QueryDirection::ToRight, e) || is_hit(
                        pattern,
                        QueryDirection::ToLeft,
                        e,
                    ),
            )
        },
{
    lemma_bidirectional_is_union(entries, pattern_of(query_type, term));
}

/// Where every text that one pattern matches is matched by another too, the
/// hits for the first are among the hits for the second, in the same order.
pub proof fn lemma_stricter_pattern_finds_less(
    entries: Seq<DictEntryView>,
    strict: Seq<char>,
    loose: Seq<char>,
    direction: QueryDirection,
)
    requires
        forall|text: Seq<char>| #[trigger]
            pattern_matches(strict, text) ==> pattern_matches(loose, text),
    ensures
        hits_of(entries, loose, direction).filter(
            |e: DictEntryView| is_hit(strict, direction, e),
        ) == hits_of(entries, strict, direction),
{
    let wide = |e: DictEntryView| is_hit(loose, direction, e);
    let narrow = |e: DictEntryView| is_hit(strict, direction, e);
    lemma_filter_twice(entries, wide, narrow);
}

} // verus!
