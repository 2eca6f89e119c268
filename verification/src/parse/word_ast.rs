//! The bracket syntax of dict.cc phrases and its syntax tree.
//!
//! A phrase is a row of fragments with spaces, tabs, carriage returns or line
//! feeds between them. A fragment is a bare word, or a bracketed part:
//! `(optional part)`, `[visible comment]`, `{gender tag}` or
//! `<acronym, list>`.

use vstd::prelude::*;
use crate::error::{DictError, DictResult};
use crate::parse::html::HtmlDecodedDictEntry;
use crate::parse::raw_csv::RecordView;
use crate::parse::grammar::{
    body_end, bracket_at, bracket_of, ends_word, fragment_at, fragments_from, is_separator,
    lemma_fragment_extent, next_separator, parsed, parsed_or_word, separator_at, skip_spaces,
    split_from, split_list, word_end, Bracket,
};
use crate::text::{
    chars_between, chars_of, clone_strings, join, join_strings, lowercase, string_of,
    to_lowercase, views_of,
};

verus! {

/// One fragment of a parsed phrase.
#[derive(Clone, Debug, PartialEq, Eq)]
pub enum WordNode {
    /// Text outside any bracket.
    Word(String),
    /// Abbreviations and acronyms, `<a, b>`.
    Angle(Vec<String>),
    /// An optional part, `(a)`.
    Round(String),
    /// A visible comment, `[a]`.
    Square(String),
    /// A gender tag, `{f}`.
    Curly(String),
}

/// The mathematical value of a `WordNode`.
pub enum NodeView {
    Word(Seq<char>),
    Angle(Seq<Seq<char>>),
    Round(Seq<char>),
    Square(Seq<char>),
    Curly(Seq<char>),
}

impl View for WordNode {
    type V = NodeView;

    open spec fn view(&self) -> NodeView {
        match self {
            WordNode::Word(s) => NodeView::Word(s@),
            WordNode::Angle(v) => NodeView::Angle(views_of(v@)),
            WordNode::Round(s) => NodeView::Round(s@),
            WordNode::Square(s) => NodeView::Square(s@),
            WordNode::Curly(s) => NodeView::Curly(s@),
        }
    }
}

/// The views of a sequence of nodes.
pub open spec fn node_views(v: Seq<WordNode>) -> Seq<NodeView> {
    v.map_values(|n: WordNode| n@)
}

/// A node written in the bracket syntax.
pub open spec fn node_text(n: NodeView) -> Seq<char> {
    match n {
        NodeView::Word(s) => s,
        NodeView::Angle(items) => seq!['<'] + join(items, seq![',', ' ']) + seq!['>'],
        NodeView::Round(s) => seq!['('] + s + seq![')'],
        NodeView::Square(s) => seq!['['] + s + seq![']'],
        NodeView::Curly(s) => seq!['{'] + s + seq!['}'],
    }
}

/// The texts of the nodes of a phrase, in order.
pub open spec fn node_texts(nodes: Seq<NodeView>) -> Seq<Seq<char>> {
    nodes.map_values(|n: NodeView| node_text(n))
}

/// A phrase written in the bracket syntax: its nodes with one space between
/// each two neighbours.
pub open spec fn phrase_text(nodes: Seq<NodeView>) -> Seq<char> {
    join(node_texts(nodes), seq![' '])
}

/// Whether a node counts as a word of the phrase: bare words and optional
/// parts do.
pub open spec fn is_counted(n: NodeView) -> bool {
    n is Word || n is Round
}

/// The number of bare words and optional parts in a phrase.
pub open spec fn counted_words(nodes: Seq<NodeView>) -> nat {
    nodes.filter(|n: NodeView| is_counted(n)).len()
}

/// What a node adds to the search key: the lowercase text of a bare word or
/// of an optional part.
pub open spec fn indexed_part(n: NodeView) -> Option<Seq<char>> {
    match n {
        NodeView::Word(s) => Some(lowercase(s)),
        NodeView::Round(s) => Some(lowercase(s)),
        _ => None,
    }
}

/// What a node adds to the plain word: the text of a bare word.
pub open spec fn plain_part(n: NodeView) -> Option<Seq<char>> {
    match n {
        NodeView::Word(s) => Some(s),
        _ => None,
    }
}

/// What a node adds to the word with optional parts: a bare word, or an
/// optional part in its brackets.
pub open spec fn optional_part(n: NodeView) -> Option<Seq<char>> {
    match n {
        NodeView::Word(_) => Some(node_text(n)),
        NodeView::Round(_) => Some(node_text(n)),
        _ => None,
    }
}

/// What a node adds to the comments: the text of a visible comment.
pub open spec fn comment_part(n: NodeView) -> Option<Seq<char>> {
    match n {
        NodeView::Square(s) => Some(s),
        _ => None,
    }
}

/// What a node adds to the gender tags: the text of a gender tag.
pub open spec fn gender_part(n: NodeView) -> Option<Seq<char>> {
    match n {
        NodeView::Curly(s) => Some(s),
        _ => None,
    }
}

/// What a node adds to the acronyms: the items of an acronym list.
pub open spec fn acronym_part(n: NodeView) -> Seq<Seq<char>> {
    match n {
        NodeView::Angle(items) => items,
        _ => Seq::empty(),
    }
}

/// The search key of a phrase: the lowercase texts of its bare words and
/// optional parts, in order, with one space between each two neighbours.
pub open spec fn indexed_word_of(nodes: Seq<NodeView>) -> Seq<char> {
    join(nodes.filter_map(|n: NodeView| indexed_part(n)), seq![' '])
}

/// The bare words of a phrase with one space between each two neighbours.
pub open spec fn plain_word_of(nodes: Seq<NodeView>) -> Seq<char> {
    join(nodes.filter_map(|n: NodeView| plain_part(n)), seq![' '])
}

/// The bare words and the optional parts of a phrase, the latter in their
/// brackets, with one space between each two neighbours.
pub open spec fn optional_word_of(nodes: Seq<NodeView>) -> Seq<char> {
    join(nodes.filter_map(|n: NodeView| optional_part(n)), seq![' '])
}

/// The visible comments of a phrase, in order.
pub open spec fn comments_of(nodes: Seq<NodeView>) -> Seq<Seq<char>> {
    nodes.filter_map(|n: NodeView| comment_part(n))
}

/// The gender tags of a phrase, in order.
pub open spec fn genders_of(nodes: Seq<NodeView>) -> Seq<Seq<char>> {
    nodes.filter_map(|n: NodeView| gender_part(n))
}

/// The items of all acronym lists of a phrase, in order.
pub open spec fn acronyms_of(nodes: Seq<NodeView>) -> Seq<Seq<char>> {
    nodes.map_values(|n: NodeView| acronym_part(n)).flatten()
}

impl WordNode {
    /// A copy of the node.
    pub fn duplicate(&self) -> (r: WordNode)
        ensures
            r@ == self@,
    {
        match self {
            WordNode::Word(s) => WordNode::Word(s.clone()),
            WordNode::Angle(v) => WordNode::Angle(clone_strings(v)),
            WordNode::Round(s) => WordNode::Round(s.clone()),
            WordNode::Square(s) => WordNode::Square(s.clone()),
            WordNode::Curly(s) => WordNode::Curly(s.clone()),
        }
    }

    /// The node in the bracket syntax.
    pub fn to_string(&self) -> (r: String)
        ensures
            r@ == node_text(self@),
    {
        match self {
            WordNode::Word(s) => s.clone(),
            WordNode::Angle(v) => {
                let inner = join_strings(v, ", ");
                proof {
                    reveal_strlit(", ");
                    reveal_strlit("<");
                    reveal_strlit(">");
                    assert(", "@ =~= seq![',', ' ']);
                    assert("<"@ =~= seq!['<']);
                    assert(">"@ =~= seq!['>']);
                }
                enclose("<", inner.as_str(), ">")
            },
            WordNode::Round(s) => {
                proof {
                    reveal_strlit("(");
                    reveal_strlit(")");
                    assert("("@ =~= seq!['(']);
                    assert(")"@ =~= seq![')']);
                }
                enclose("(", s.as_str(), ")")
            },
            WordNode::Square(s) => {
                proof {
                    reveal_strlit("[");
                    reveal_strlit("]");
                    assert("["@ =~= seq!['[']);
                    assert("]"@ =~= seq![']']);
                }
                enclose("[", s.as_str(), "]")
            },
            WordNode::Curly(s) => {
                proof {
                    reveal_strlit("{");
                    reveal_strlit("}");
                    assert("{"@ =~= seq!['{']);
                    assert("}"@ =~= seq!['}']);
                }
                enclose("{", s.as_str(), "}")
            },
        }
    }
}

/// `body` between `open` and `close`.
fn enclose(open: &str, body: &str, close: &str) -> (r: String)
    ensures
        r@ == open@ + body@ + close@,
{
    let mut r = String::new();
    vstd::string::StringExecFns::append(&mut r, open);
    vstd::string::StringExecFns::append(&mut r, body);
    vstd::string::StringExecFns::append(&mut r, close);
    assert(r@ =~= open@ + body@ + close@);
    r
}

/// The kinds of text that a phrase is projected to.
#[derive(Clone, Copy)]
enum Part {
    Indexed,
    Plain,
    Optional,
    Comment,
    Gender,
}

spec fn part_of(kind: Part, n: NodeView) -> Option<Seq<char>> {
    match kind {
        Part::Indexed => indexed_part(n),
        Part::Plain => plain_part(n),
        Part::Optional => optional_part(n),
        Part::Comment => comment_part(n),
        Part::Gender => gender_part(n),
    }
}

/// What `node` adds to the projection `kind`, if anything.
fn take_part(kind: Part, node: &WordNode) -> (r: Option<String>)
    ensures
        match r {
            Some(s) => part_of(kind, node@) == Some(s@),
            None => part_of(kind, node@) is None,
        },
{
    match kind {
        Part::Indexed => match node {
            WordNode::Word(s) => Some(to_lowercase(s.as_str())),
            WordNode::Round(s) => Some(to_lowercase(s.as_str())),
            _ => None,
        },
        Part::Plain => match node {
            WordNode::Word(s) => Some(s.clone()),
            _ => None,
        },
        Part::Optional => match node {
            WordNode::Word(_) => Some(node.to_string()),
            WordNode::Round(_) => Some(node.to_string()),
            _ => None,
        },
        Part::Comment => match node {
            WordNode::Square(s) => Some(s.clone()),
            _ => None,
        },
        Part::Gender => match node {
            WordNode::Curly(s) => Some(s.clone()),
            _ => None,
        },
    }
}

/// A parsed phrase: its nodes in the order of the source.
#[derive(Clone, Debug, PartialEq, Eq)]
pub struct WordNodes {
    nodes: Vec<WordNode>,
}

impl View for WordNodes {
    type V = Seq<NodeView>;

    closed spec fn view(&self) -> Seq<NodeView> {
        node_views(self.nodes@)
    }
}

impl WordNodes {
    /// The phrase made of `nodes`.
    pub fn from(nodes: Vec<WordNode>) -> (r: WordNodes)
        ensures
            r@ == node_views(nodes@),
    {
        WordNodes { nodes }
    }

    /// The nodes of the phrase.
    pub fn nodes(&self) -> (r: &[WordNode])
        ensures
            node_views(r@) == self@,
    {
        self.nodes.as_slice()
    }

    /// A copy of the phrase.
    pub fn duplicate(&self) -> (r: WordNodes)
        ensures
            r@ == self@,
    {
        let mut nodes: Vec<WordNode> = Vec::new();
        let mut i: usize = 0;
        while i < self.nodes.len()
            invariant
                i <= self.nodes.len(),
                node_views(nodes@) == node_views(self.nodes@.take(i as int)),
            decreases self.nodes.len() - i,
        {
            let ghost before = nodes@;
            let copy = self.nodes[i].duplicate();
            nodes.push(copy);
            proof {
                let src = self.nodes@;
                assert(src.take(i + 1) =~= src.take(i as int).push(src[i as int]));
                assert(node_views(nodes@) =~= node_views(before).push(copy@));
                assert(node_views(src.take(i + 1)) =~= node_views(src.take(i as int)).push(
                    src[i as int]@,
                ));
            }
            i += 1;
        }
        assert(self.nodes@.take(self.nodes.len() as int) =~= self.nodes@);
        WordNodes { nodes }
    }

    /// The texts that the nodes add to the projection `kind`, in order.
    fn collect(&self, kind: Part) -> (r: Vec<String>)
        ensures
            views_of(r@) == self@.filter_map(|n: NodeView| part_of(kind, n)),
    {
        let ghost f = |n: NodeView| part_of(kind, n);
        let ghost all = node_views(self.nodes@);
        let mut r: Vec<String> = Vec::new();
        let mut i: usize = 0;
        while i < self.nodes.len()
            invariant
                i <= self.nodes.len(),
                all == node_views(self.nodes@),
                f == |n: NodeView| part_of(kind, n),
                views_of(r@) == all.take(i as int).filter_map(f),
            decreases self.nodes.len() - i,
        {
            let ghost before = r@;
            proof {
                all.lemma_filter_map_take_succ(f, i as int);
            }
            match take_part(kind, &self.nodes[i]) {
                Some(s) => {
                    r.push(s);
                    assert(views_of(r@) =~= views_of(before).push(s@));
                },
                None => {},
            }
            i += 1;
        }
        assert(all.take(self.nodes.len() as int) =~= all);
        r
    }

    /// The visible comments of the phrase, in order.
    pub fn build_comments(&self) -> (r: Vec<String>)
        ensures
            views_of(r@) == comments_of(self@),
    {
        let r = self.collect(Part::Comment);
        assert((|n: NodeView| part_of(Part::Comment, n)) =~= (|n: NodeView| comment_part(n)));
        r
    }

    /// The gender tags of the phrase, in order.
    pub fn build_genders(&self) -> (r: Vec<String>)
        ensures
            views_of(r@) == genders_of(self@),
    {
        let r = self.collect(Part::Gender);
        assert((|n: NodeView| part_of(Part::Gender, n)) =~= (|n: NodeView| gender_part(n)));
        r
    }

    /// The items of all acronym lists of the phrase, in order.
    pub fn build_acronyms(&self) -> (r: Vec<String>)
        ensures
            views_of(r@) == acronyms_of(self@),
    {
        let ghost all = node_views(self.nodes@);
        let ghost lists = all.map_values(|n: NodeView| acronym_part(n));
        let mut r: Vec<String> = Vec::new();
        let mut i: usize = 0;
        while i < self.nodes.len()
            invariant
                i <= self.nodes.len(),
                all == node_views(self.nodes@),
                lists == all.map_values(|n: NodeView| acronym_part(n)),
                views_of(r@) == lists.take(i as int).flatten(),
            decreases self.nodes.len() - i,
        {
            let ghost before = r@;
            proof {
                vstd::seq_lib::lemma_flatten_concat(lists.take(i as int), seq![lists[i as int]]);
                seq![lists[i as int]].lemma_flatten_one_element();
                assert(lists.take(i + 1) =~= lists.take(i as int) + seq![lists[i as int]]);
            }
            match &self.nodes[i] {
                WordNode::Angle(items) => {
                    let mut j: usize = 0;
                    while j < items.len()
                        invariant
                            j <= items.len(),
                            views_of(r@) == views_of(before) + views_of(items@).take(j as int),
                        decreases items.len() - j,
                    {
                        let ghost inner = r@;
                        r.push(items[j].clone());
                        assert(views_of(r@) =~= views_of(inner).push(items@[j as int]@));
                        assert(views_of(items@).take(j + 1) =~= views_of(items@).take(
                            j as int,
                        ).push(items@[j as int]@));
                        j += 1;
                    }
                    assert(views_of(items@).take(items.len() as int) =~= views_of(items@));
                },
                _ => {
                    assert(views_of(r@) =~= views_of(before) + Seq::<Seq<char>>::empty());
                },
            }
            i += 1;
        }
        assert(lists.take(self.nodes.len() as int) =~= lists);
        r
    }

    /// The bare words and the optional parts of the phrase, the latter in
    /// their brackets, with one space between each two neighbours.
    pub fn build_word_with_optional_parts(&self) -> (r: String)
        ensures
            r@ == optional_word_of(self@),
    {
        let parts = self.collect(Part::Optional);
        assert((|n: NodeView| part_of(Part::Optional, n)) =~= (|n: NodeView| optional_part(n)));
        proof {
            reveal_strlit(" ");
            assert(" "@ =~= seq![' ']);
        }
        join_strings(&parts, " ")
    }

    /// The bare words of the phrase with one space between each two
    /// neighbours.
    pub fn build_plain_word(&self) -> (r: String)
        ensures
            r@ == plain_word_of(self@),
    {
        let parts = self.collect(Part::Plain);
        assert((|n: NodeView| part_of(Part::Plain, n)) =~= (|n: NodeView| plain_part(n)));
        proof {
            reveal_strlit(" ");
            assert(" "@ =~= seq![' ']);
        }
        join_strings(&parts, " ")
    }

    /// The search key of the phrase: the lowercase texts of its bare words
    /// and optional parts with one space between each two neighbours.
    pub fn build_indexed_word(&self) -> (r: String)
        ensures
            r@ == indexed_word_of(self@),
    {
        let parts = self.collect(Part::Indexed);
        assert((|n: NodeView| part_of(Part::Indexed, n)) =~= (|n: NodeView| indexed_part(n)));
        proof {
            reveal_strlit(" ");
            assert(" "@ =~= seq![' ']);
        }
        join_strings(&parts, " ")
    }

    /// The number of bare words and optional parts in the phrase.
    pub fn count_words(&self) -> (r: usize)
        ensures
            r == counted_words(self@),
    {
        let ghost all = node_views(self.nodes@);
        let ghost f = |n: NodeView| is_counted(n);
        let mut r: usize = 0;
        let mut i: usize = 0;
        while i < self.nodes.len()
            invariant
                i <= self.nodes.len(),
                all == node_views(self.nodes@),
                f == |n: NodeView| is_counted(n),
                r == all.take(i as int).filter(f).len(),
                r <= i,
            decreases self.nodes.len() - i,
        {
            proof {
                assert(all.take(i + 1) =~= all.take(i as int).push(all[i as int]));
                all.take(i as int).lemma_filter_len_push(f, all[i as int]);
            }
            match &self.nodes[i] {
                WordNode::Word(_) => {
                    r += 1;
                },
                WordNode::Round(_) => {
                    r += 1;
                },
                _ => {},
            }
            i += 1;
        }
        assert(all.take(self.nodes.len() as int) =~= all);
        r
    }

    /// The phrase in the bracket syntax: its nodes with one space between
    /// each two neighbours.
    pub fn to_string(&self) -> (r: String)
        ensures
            r@ == phrase_text(self@),
    {
        let ghost all = node_views(self.nodes@);
        let mut texts: Vec<String> = Vec::new();
        let mut i: usize = 0;
        while i < self.nodes.len()
            invariant
                i <= self.nodes.len(),
                all == node_views(self.nodes@),
                views_of(texts@) == node_texts(all.take(i as int)),
            decreases self.nodes.len() - i,
        {
            let ghost before = texts@;
            let t = self.nodes[i].to_string();
            texts.push(t);
            proof {
                assert(views_of(texts@) =~= views_of(before).push(t@));
                assert(all.take(i + 1) =~= all.take(i as int).push(all[i as int]));
                assert(node_texts(all.take(i + 1)) =~= node_texts(all.take(i as int)).push(
                    node_text(all[i as int]),
                ));
            }
            i += 1;
        }
        assert(all.take(self.nodes.len() as int) =~= all);
        proof {
            reveal_strlit(" ");
            assert(" "@ =~= seq![' ']);
        }
        join_strings(&texts, " ")
    }
}

impl Bracket {
    /// The character that opens the bracket.
    pub fn opening_char(self) -> (c: char)
        ensures
            c == self.opening(),
    {
        match self {
            Bracket::Angle => '<',
            Bracket::Round => '(',
            Bracket::Square => '[',
            Bracket::Curly => '{',
        }
    }

    /// The character that closes the bracket.
    pub fn closing_char(self) -> (c: char)
        ensures
            c == self.closing(),
    {
        match self {
            Bracket::Angle => '>',
            Bracket::Round => ')',
            Bracket::Square => ']',
            Bracket::Curly => '}',
        }
    }

    /// The kind of bracket that `c` opens.
    pub fn opened_by(c: char) -> (r: Option<Bracket>)
        ensures
            r == bracket_of(c),
    {
        if c == '<' {
            Some(Bracket::Angle)
        } else if c == '(' {
            Some(Bracket::Round)
        } else if c == '[' {
            Some(Bracket::Square)
        } else if c == '{' {
            Some(Bracket::Curly)
        } else {
            None
        }
    }
}

/// Whether `c` separates fragments.
fn separates(c: char) -> (r: bool)
    ensures
        r == is_separator(c),
{
    c == ' ' || c == '\t' || c == '\r' || c == '\n'
}

/// The first position at or after `i` that holds no separator.
fn scan_spaces(cs: &Vec<char>, i: usize) -> (k: usize)
    requires
        i <= cs.len(),
    ensures
        k == skip_spaces(cs@, i as int),
        i <= k <= cs.len(),
{
    let mut k: usize = i;
    while k < cs.len() && separates(cs[k])
        invariant
            i <= k <= cs.len(),
            skip_spaces(cs@, i as int) == skip_spaces(cs@, k as int),
        decreases cs.len() - k,
    {
        k += 1;
    }
    k
}

/// The end of the bare word that starts at `i`.
fn scan_word(cs: &Vec<char>, i: usize) -> (k: usize)
    requires
        i <= cs.len(),
    ensures
        k == word_end(cs@, i as int),
        i <= k <= cs.len(),
{
    let mut k: usize = i;
    while k < cs.len() && !(cs[k] == '(' || cs[k] == '[' || cs[k] == '{' || cs[k] == '<' || cs[k]
        == ' ')
        invariant
            i <= k <= cs.len(),
            word_end(cs@, i as int) == word_end(cs@, k as int),
        decreases cs.len() - k,
    {
        k += 1;
    }
    k
}

/// The end of the body of a bracket of kind `b` that starts at `i`.
fn scan_body(cs: &Vec<char>, i: usize, b: Bracket) -> (k: usize)
    requires
        i <= cs.len(),
    ensures
        k == body_end(cs@, i as int, b),
        i <= k <= cs.len(),
{
    let open = b.opening_char();
    let close = b.closing_char();
    let mut k: usize = i;
    while k < cs.len() && cs[k] != open && cs[k] != close
        invariant
            i <= k <= cs.len(),
            open == b.opening(),
            close == b.closing(),
            body_end(cs@, i as int, b) == body_end(cs@, k as int, b),
        decreases cs.len() - k,
    {
        k += 1;
    }
    k
}

/// The bracket of kind `b` that starts at `i`: where its body starts and
/// where it ends.
fn read_bracket(cs: &Vec<char>, i: usize, b: Bracket) -> (r: Option<(usize, usize)>)
    requires
        i <= cs.len(),
    ensures
        match r {
            Some((from, to)) => from <= to < cs.len() && bracket_at(cs@, i as int, b) == Some(
                (cs@.subrange(from as int, to as int), to + 1),
            ),
            None => bracket_at(cs@, i as int, b) is None,
        },
{
    if i >= cs.len() || cs[i] != b.opening_char() {
        return None;
    }
    let j = scan_body(cs, i + 1, b);
    if j > i + 1 && j < cs.len() && cs[j] == b.closing_char() {
        Some((i + 1, j))
    } else {
        None
    }
}

/// The items of the list `body`: the text cut at each comma that a space
/// follows.
fn split_items(body: &Vec<char>) -> (r: Vec<String>)
    ensures
        views_of(r@) == split_list(body@),
{
    let mut r: Vec<String> = Vec::new();
    let mut start: usize = 0;
    let mut k: usize = 0;
    loop
        invariant
            start <= k <= body.len(),
            next_separator(body@, start as int) == next_separator(body@, k as int),
            split_list(body@) == views_of(r@) + split_from(body@, start as int),
        decreases body.len() - k,
    {
        if k >= body.len() {
            let item = string_of(body, start, body.len());
            let ghost before = r@;
            r.push(item);
            assert(views_of(r@) =~= views_of(before) + seq![item@]);
            return r;
        }
        if body[k] == ',' && k + 1 < body.len() && body[k + 1] == ' ' {
            let item = string_of(body, start, k);
            let ghost before = r@;
            r.push(item);
            proof {
                assert(separator_at(body@, k as int));
                assert(views_of(r@) =~= views_of(before) + seq![item@]);
                assert(views_of(r@) + split_from(body@, k + 2) =~= views_of(before) + (seq![
                    item@,
                ] + split_from(body@, k + 2)));
            }
            start = k + 2;
            k = k + 2;
        } else {
            assert(!separator_at(body@, k as int));
            k += 1;
        }
    }
}

/// The fragment that starts at `i`: its node and the position after it.
fn read_fragment(cs: &Vec<char>, i: usize) -> (r: Option<(WordNode, usize)>)
    requires
        i <= cs.len(),
    ensures
        match r {
            Some((node, next)) => i < next <= cs.len() && fragment_at(cs@, i as int) == Some(
                (node@, next as int),
            ),
            None => fragment_at(cs@, i as int) is None,
        },
{
    if i >= cs.len() || separates(cs[i]) {
        return None;
    }
    match Bracket::opened_by(cs[i]) {
        Some(b) => match read_bracket(cs, i, b) {
            Some((from, to)) => {
                let node = match b {
                    Bracket::Angle => {
                        let body = chars_between(cs, from, to);
                        WordNode::Angle(split_items(&body))
                    },
                    Bracket::Round => WordNode::Round(string_of(cs, from, to)),
                    Bracket::Square => WordNode::Square(string_of(cs, from, to)),
                    Bracket::Curly => WordNode::Curly(string_of(cs, from, to)),
                };
                Some((node, to + 1))
            },
            None => None,
        },
        None => {
            let end = scan_word(cs, i);
            proof {
                lemma_fragment_extent(cs@, i as int);
            }
            Some((WordNode::Word(string_of(cs, i, end)), end))
        },
    }
}

/// The fragments of `cs` from its start on, and the position where reading
/// stopped.
fn read_fragments(cs: &Vec<char>) -> (r: (Vec<WordNode>, usize))
    ensures
        (node_views(r.0@), r.1 as int) == fragments_from(cs@, 0),
        r.1 <= cs.len(),
{
    let mut nodes: Vec<WordNode> = Vec::new();
    let mut pos: usize = 0;
    loop
        invariant
            pos <= cs.len(),
            fragments_from(cs@, 0) == (
                node_views(nodes@) + fragments_from(cs@, pos as int).0,
                fragments_from(cs@, pos as int).1,
            ),
        decreases cs.len() - pos,
    {
        let k = scan_spaces(cs, pos);
        match read_fragment(cs, k) {
            None => {
                assert(node_views(nodes@) + Seq::<NodeView>::empty() =~= node_views(nodes@));
                return (nodes, k);
            },
            Some((node, next)) => {
                let ghost before = nodes@;
                let ghost view = node@;
                nodes.push(node);
                assert(node_views(nodes@) =~= node_views(before) + seq![view]);
                if next < cs.len() && !separates(cs[next]) {
                    return (nodes, next);
                }
                assert(node_views(nodes@) + fragments_from(cs@, next as int).0 =~= node_views(
                    before,
                ) + (seq![view] + fragments_from(cs@, next as int).0));
                pos = next;
            },
        }
    }
}

/// Reads fragments from the start of `input`, as many as there are: the rest
/// of the input, from where reading stopped, and the nodes read. `None`
/// where not even one fragment could be read.
pub fn entry(input: &str) -> (r: Option<(String, Vec<WordNode>)>)
    ensures
        match r {
            Some((rest, nodes)) => {
                &&& nodes@.len() > 0
                &&& node_views(nodes@) == fragments_from(input@, 0).0
                &&& rest@ == input@.subrange(
                    fragments_from(input@, 0).1,
                    input@.len() as int,
                )
            },
            None => fragments_from(input@, 0).0.len() == 0,
        },
{
    let cs = chars_of(input);
    let (nodes, stop) = read_fragments(&cs);
    if nodes.len() == 0 {
        None
    } else {
        Some((string_of(&cs, stop, cs.len()), nodes))
    }
}

/// Reads a bare word from the start of `input`: the rest of the input and
/// the word. `None` where no word starts there.
pub fn word(input: &str) -> (r: Option<(String, String)>)
    ensures
        match r {
            Some((rest, text)) => {
                &&& input@.len() > 0 && !ends_word(input@[0])
                &&& text@ == input@.subrange(0, word_end(input@, 0))
                &&& rest@ == input@.subrange(word_end(input@, 0), input@.len() as int)
            },
            None => input@.len() == 0 || ends_word(input@[0]),
        },
{
    let cs = chars_of(input);
    if cs.len() == 0 || cs[0] == '(' || cs[0] == '[' || cs[0] == '{' || cs[0] == '<' || cs[0]
        == ' ' {
        return None;
    }
    let end = scan_word(&cs, 0);
    Some((string_of(&cs, end, cs.len()), string_of(&cs, 0, end)))
}

/// Reads a bracket of kind `b` from the start of `input`: the rest of the
/// input and the bracket's body. `None` where no such bracket starts there.
pub fn bracket(input: &str, b: Bracket) -> (r: Option<(String, String)>)
    ensures
        match bracket_at(input@, 0, b) {
            Some((body, next)) => r matches Some((rest, text)) && text@ == body && rest@
                == input@.subrange(next, input@.len() as int),
            None => r is None,
        },
{
    let cs = chars_of(input);
    match read_bracket(&cs, 0, b) {
        Some((from, to)) => Some((string_of(&cs, to + 1, cs.len()), string_of(&cs, from, to))),
        None => None,
    }
}

/// Reads an optional part, `(a)`, from the start of `input`.
pub fn round_br(input: &str) -> (r: Option<(String, String)>)
    ensures
        match bracket_at(input@, 0, Bracket::Round) {
            Some((body, next)) => r matches Some((rest, text)) && text@ == body && rest@
                == input@.subrange(next, input@.len() as int),
            None => r is None,
        },
{
    bracket(input, Bracket::Round)
}

/// Reads a visible comment, `[a]`, from the start of `input`.
pub fn square_br(input: &str) -> (r: Option<(String, String)>)
    ensures
        match bracket_at(input@, 0, Bracket::Square) {
            Some((body, next)) => r matches Some((rest, text)) && text@ == body && rest@
                == input@.subrange(next, input@.len() as int),
            None => r is None,
        },
{
    bracket(input, Bracket::Square)
}

/// Reads a gender tag, `{a}`, from the start of `input`.
pub fn curly_br(input: &str) -> (r: Option<(String, String)>)
    ensures
        match bracket_at(input@, 0, Bracket::Curly) {
            Some((body, next)) => r matches Some((rest, text)) && text@ == body && rest@
                == input@.subrange(next, input@.len() as int),
            None => r is None,
        },
{
    bracket(input, Bracket::Curly)
}

/// Reads an acronym list, `<a, b>`, from the start of `input`: the rest of
/// the input and the items of the list.
pub fn angle_br(input: &str) -> (r: Option<(String, Vec<String>)>)
    ensures
        match bracket_at(input@, 0, Bracket::Angle) {
            Some((body, next)) => r matches Some((rest, items)) && views_of(items@)
                == split_list(body) && rest@ == input@.subrange(next, input@.len() as int),
            None => r is None,
        },
{
    let cs = chars_of(input);
    match read_bracket(&cs, 0, Bracket::Angle) {
        Some((from, to)) => {
            let body = chars_between(&cs, from, to);
            Some((string_of(&cs, to + 1, cs.len()), split_items(&body)))
        },
        None => None,
    }
}

/// Cuts `input` at each comma that a space follows: the rest of the input,
/// which is empty, and the items.
pub fn csv(input: &str) -> (r: Option<(String, Vec<String>)>)
    ensures
        r matches Some((rest, items)) && rest@.len() == 0 && views_of(items@) == split_list(
            input@,
        ),
{
    let cs = chars_of(input);
    Some((String::new(), split_items(&cs)))
}

/// Whether `e` is the error for the text `word`, which is no phrase:
/// `WordASTParse` where `word` does not start with a fragment, and else
/// `WordASTRemainingInput` with the part of `word` behind the fragments
/// that could be read.
pub open spec fn is_parse_error(e: DictError, word: Seq<char>) -> bool {
    match e {
        DictError::WordASTParse { word: w } => {
            &&& fragments_from(word, 0).0.len() == 0
            &&& w@ == word
        },
        DictError::WordASTRemainingInput { word: w, remaining_input } => {
            &&& fragments_from(word, 0).0.len() > 0
            &&& w@ == word
            &&& remaining_input@ == word.subrange(fragments_from(word, 0).1, word.len() as int)
        },
        _ => false,
    }
}

impl WordNodes {
    /// Parses a phrase.
    ///
    /// Fails where `word` is no phrase: with `WordASTParse` where it does
    /// not start with a fragment, and else with `WordASTRemainingInput` and
    /// the part of `word` that follows the fragments that could be read.
    pub fn try_from(word: &str) -> (r: DictResult<WordNodes>)
        ensures
            match r {
                Ok(nodes) => parsed(word@) == Some(nodes@),
                Err(e) => parsed(word@) is None && is_parse_error(e, word@),
            },
    {
        let cs = chars_of(word);
        let (nodes, stop) = read_fragments(&cs);
        assert(cs@.subrange(0, cs.len() as int) =~= cs@);
        if nodes.len() == 0 {
            Err(DictError::WordASTParse { word: string_of(&cs, 0, cs.len()) })
        } else if stop < cs.len() {
            Err(
                DictError::WordASTRemainingInput {
                    word: string_of(&cs, 0, cs.len()),
                    remaining_input: string_of(&cs, stop, cs.len()),
                },
            )
        } else {
            Ok(WordNodes { nodes })
        }
    }

    /// Parses a phrase; where `s` is no phrase, the result is the whole of
    /// `s` as one bare word. Either way the result has at least one node.
    pub fn with_fallback_from(s: &str) -> (r: WordNodes)
        ensures
            r@ == parsed_or_word(s@),
            r@.len() > 0,
    {
        match WordNodes::try_from(s) {
            Ok(nodes) => nodes,
            Err(_) => {
                let whole = s.to_owned();
                let mut nodes: Vec<WordNode> = Vec::new();
                nodes.push(WordNode::Word(whole));
                assert(node_views(nodes@) =~= seq![NodeView::Word(s@)]);
                WordNodes { nodes }
            },
        }
    }
}

/// A record with both phrases parsed.
#[derive(Clone, Debug, PartialEq, Eq)]
pub struct WordNodesDictEntry {
    /// The left phrase.
    pub left_word_nodes: WordNodes,
    /// The right phrase.
    pub right_word_nodes: WordNodes,
    /// The list of word classes, as it stands in the record.
    pub word_classes: String,
}

/// The mathematical value of a `WordNodesDictEntry`.
pub struct NodesEntryView {
    pub left: Seq<NodeView>,
    pub right: Seq<NodeView>,
    pub word_classes: Seq<char>,
}

impl View for WordNodesDictEntry {
    type V = NodesEntryView;

    open spec fn view(&self) -> NodesEntryView {
        NodesEntryView {
            left: self.left_word_nodes@,
            right: self.right_word_nodes@,
            word_classes: self.word_classes@,
        }
    }
}

/// A record with each phrase parsed, or taken as one bare word where it is
/// no phrase.
pub open spec fn parsed_record(record: RecordView) -> NodesEntryView {
    NodesEntryView {
        left: parsed_or_word(record.left_word),
        right: parsed_or_word(record.right_word),
        word_classes: record.word_classes,
    }
}

impl WordNodesDictEntry {
    /// Parses the two phrases of `entry`.
    ///
    /// Fails where one of them is no phrase, with the error of the left one
    /// where that is none.
    pub fn try_from(entry: &HtmlDecodedDictEntry) -> (r: DictResult<WordNodesDictEntry>)
        ensures
            match r {
                Ok(nodes) => {
                    &&& parsed(entry@.left_word) == Some(nodes@.left)
                    &&& parsed(entry@.right_word) == Some(nodes@.right)
                    &&& nodes@.word_classes == entry@.word_classes
                },
                Err(e) => if parsed(entry@.left_word) is None {
                    is_parse_error(e, entry@.left_word)
                } else {
                    parsed(entry@.right_word) is None && is_parse_error(e, entry@.right_word)
                },
            },
    {
        let left = match WordNodes::try_from(entry.left_word.as_str()) {
            Ok(nodes) => nodes,
            Err(e) => {
                return Err(e);
            },
        };
        let right = match WordNodes::try_from(entry.right_word.as_str()) {
            Ok(nodes) => nodes,
            Err(e) => {
                return Err(e);
            },
        };
        Ok(
            WordNodesDictEntry {
                left_word_nodes: left,
                right_word_nodes: right,
                word_classes: entry.word_classes.clone(),
            },
        )
    }

    /// Parses the two phrases of `entry`. One that is no phrase is taken as
    /// one bare word.
    pub fn from(entry: &HtmlDecodedDictEntry) -> (r: WordNodesDictEntry)
        ensures
            r@ == parsed_record(entry@),
    {
        WordNodesDictEntry {
            left_word_nodes: WordNodes::with_fallback_from(entry.left_word.as_str()),
            right_word_nodes: WordNodes::with_fallback_from(entry.right_word.as_str()),
            word_classes: entry.word_classes.clone(),
        }
    }
}

} // verus!
