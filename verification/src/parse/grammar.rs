//! The grammar of dict.cc phrases, as functions on sequences of characters.
//!
//! ```text
//! phrase   = { sep } , fragment , { sep , { sep } , fragment } , { sep } ;
//! sep      = space | tab | carriage return | line feed ;
//! fragment = word | angle | round | square | curly ;
//! word     = one or more characters other than ( [ { < and space ;
//! angle    = "<" , body without < > , ">" ;   the body is a list split at ", "
//! round    = "(" , body without ( ) , ")" ;
//! square   = "[" , body without [ ] , "]" ;
//! curly    = "{" , body without { } , "}" ;
//! ```
//!
//! Bodies are not empty and brackets do not nest.

use vstd::prelude::*;
use crate::parse::word_ast::{node_text, node_texts, phrase_text, NodeView};
use crate::text::{join, lemma_join_front};

verus! {

/// The four kinds of bracket.
#[derive(Clone, Copy, Debug, PartialEq, Eq, Structural)]
pub enum Bracket {
    Angle,
    Round,
    Square,
    Curly,
}

impl Bracket {
    /// The character that opens the bracket.
    pub open spec fn opening(self) -> char {
        match self {
            Bracket::Angle => '<',
            Bracket::Round => '(',
            Bracket::Square => '[',
            Bracket::Curly => '{',
        }
    }

    /// The character that closes the bracket.
    pub open spec fn closing(self) -> char {
        match self {
            Bracket::Angle => '>',
            Bracket::Round => ')',
            Bracket::Square => ']',
            Bracket::Curly => '}',
        }
    }

    /// The node that a bracket of this kind with this body stands for.
    pub open spec fn node(self, body: Seq<char>) -> NodeView {
        match self {
            Bracket::Angle => NodeView::Angle(split_list(body)),
            Bracket::Round => NodeView::Round(body),
            Bracket::Square => NodeView::Square(body),
            Bracket::Curly => NodeView::Curly(body),
        }
    }
}

/// Whether `c` separates fragments: the space, the tab, the carriage return
/// and the line feed do.
pub open spec fn is_separator(c: char) -> bool {
    c == ' ' || c == '\t' || c == '\r' || c == '\n'
}

/// Whether `c` ends a bare word.
pub open spec fn ends_word(c: char) -> bool {
    c == '(' || c == '[' || c == '{' || c == '<' || c == ' '
}

/// The first position at or after `i` that holds no separator.
pub open spec fn skip_spaces(s: Seq<char>, i: int) -> int
    decreases s.len() - i,
{
    if 0 <= i < s.len() && is_separator(s[i]) {
        skip_spaces(s, i + 1)
    } else {
        i
    }
}

/// The end of the bare word that starts at `i`: the first position at or
/// after `i` that holds a character which ends a word.
pub open spec fn word_end(s: Seq<char>, i: int) -> int
    decreases s.len() - i,
{
    if 0 <= i < s.len() && !ends_word(s[i]) {
        word_end(s, i + 1)
    } else {
        i
    }
}

/// The end of a bracket's body that starts at `i`: the first position at or
/// after `i` that holds the bracket's opening or closing character.
pub open spec fn body_end(s: Seq<char>, i: int, b: Bracket) -> int
    decreases s.len() - i,
{
    if 0 <= i < s.len() && s[i] != b.opening() && s[i] != b.closing() {
        body_end(s, i + 1, b)
    } else {
        i
    }
}

/// Whether the list separator, a comma and a space, stands at `i`.
pub open spec fn separator_at(s: Seq<char>, i: int) -> bool {
    0 <= i && i + 1 < s.len() && s[i] == ',' && s[i + 1] == ' '
}

/// The first position at or after `i` where the list separator stands, or
/// the length of `s` where there is none.
pub open spec fn next_separator(s: Seq<char>, i: int) -> int
    decreases s.len() - i,
{
    if i < 0 || i >= s.len() {
        s.len() as int
    } else if separator_at(s, i) {
        i
    } else {
        next_separator(s, i + 1)
    }
}

/// The items of the list that starts at `i`: the text is cut at each
/// separator, from the left.
pub open spec fn split_from(s: Seq<char>, i: int) -> Seq<Seq<char>>
    decreases s.len() - i,
    via split_from_decreases
{
    let k = next_separator(s, i);
    if 0 <= i <= k < s.len() {
        seq![s.subrange(i, k)] + split_from(s, k + 2)
    } else if 0 <= i <= s.len() {
        seq![s.subrange(i, s.len() as int)]
    } else {
        seq![Seq::empty()]
    }
}

#[via_fn]
proof fn split_from_decreases(s: Seq<char>, i: int) {
    if 0 <= i <= s.len() {
        lemma_next_separator(s, i);
    }
}

/// The items of a list: `s` cut at each comma that a space follows.
pub open spec fn split_list(s: Seq<char>) -> Seq<Seq<char>> {
    split_from(s, 0)
}

/// The bracket of kind `b` that starts at `i`: its body and the position
/// after it.
pub open spec fn bracket_at(s: Seq<char>, i: int, b: Bracket) -> Option<(Seq<char>, int)> {
    let j = body_end(s, i + 1, b);
    if 0 <= i < s.len() && s[i] == b.opening() && i + 1 < j < s.len() && s[j] == b.closing() {
        Some((s.subrange(i + 1, j), j + 1))
    } else {
        None
    }
}

/// The kind of bracket that `c` opens.
pub open spec fn bracket_of(c: char) -> Option<Bracket> {
    if c == '<' {
        Some(Bracket::Angle)
    } else if c == '(' {
        Some(Bracket::Round)
    } else if c == '[' {
        Some(Bracket::Square)
    } else if c == '{' {
        Some(Bracket::Curly)
    } else {
        None
    }
}

/// The fragment that starts at `i`: its node and the position after it.
pub open spec fn fragment_at(s: Seq<char>, i: int) -> Option<(NodeView, int)> {
    if !(0 <= i < s.len()) || is_separator(s[i]) {
        None
    } else {
        match bracket_of(s[i]) {
            Some(b) => match bracket_at(s, i, b) {
                Some((body, next)) => Some((b.node(body), next)),
                None => None,
            },
            None => Some((NodeView::Word(s.subrange(i, word_end(s, i))), word_end(s, i))),
        }
    }
}

/// The fragments read from `i` on, and the position where reading stopped.
///
/// Separators before a fragment are passed over. Reading stops at the end of
/// `s`, where no fragment starts, or behind a fragment that no separator
/// follows.
pub open spec fn fragments_from(s: Seq<char>, i: int) -> (Seq<NodeView>, int)
    decreases s.len() - i,
    via fragments_from_decreases
{
    let k = skip_spaces(s, i);
    match fragment_at(s, k) {
        None => (Seq::empty(), k),
        Some((node, next)) => if next < s.len() && !is_separator(s[next]) {
            (seq![node], next)
        } else {
            let (rest, stop) = fragments_from(s, next);
            (seq![node] + rest, stop)
        },
    }
}

#[via_fn]
proof fn fragments_from_decreases(s: Seq<char>, i: int) {
    let k = skip_spaces(s, i);
    lemma_skip_spaces(s, i);
    if fragment_at(s, k) is Some {
        lemma_fragment_extent(s, k);
    }
}

/// The nodes of the phrase `s`, if it is one: fragments with separators
/// between them that take up all of `s`, and at least one of them.
pub open spec fn parsed(s: Seq<char>) -> Option<Seq<NodeView>> {
    let (nodes, stop) = fragments_from(s, 0);
    if stop == s.len() && nodes.len() > 0 {
        Some(nodes)
    } else {
        None
    }
}

/// The nodes of `s` where it is a phrase, and else the whole of `s` as one
/// bare word.
pub open spec fn parsed_or_word(s: Seq<char>) -> Seq<NodeView> {
    match parsed(s) {
        Some(nodes) => nodes,
        None => seq![NodeView::Word(s)],
    }
}

/// The position that `skip_spaces` gives lies at or after `i`, only
/// separators stand between `i` and it, and no separator stands at it.
pub proof fn lemma_skip_spaces(s: Seq<char>, i: int)
    ensures
        i <= skip_spaces(s, i),
        i <= s.len() ==> skip_spaces(s, i) <= s.len(),
        forall|j: int| i <= j < skip_spaces(s, i) ==> is_separator(s[j]),
        0 <= skip_spaces(s, i) < s.len() ==> !is_separator(s[skip_spaces(s, i)]),
    decreases s.len() - i,
{
    if 0 <= i < s.len() && is_separator(s[i]) {
        lemma_skip_spaces(s, i + 1);
    }
}

/// The position that `word_end` gives lies at or after `i`, no character
/// that ends a word stands between `i` and it, and one stands at it where it
/// lies in `s`.
pub proof fn lemma_word_end(s: Seq<char>, i: int)
    requires
        0 <= i <= s.len(),
    ensures
        i <= word_end(s, i) <= s.len(),
        forall|j: int| i <= j < word_end(s, i) ==> !ends_word(s[j]),
        word_end(s, i) < s.len() ==> ends_word(s[word_end(s, i)]),
    decreases s.len() - i,
{
    if i < s.len() && !ends_word(s[i]) {
        lemma_word_end(s, i + 1);
    }
}

/// The position that `body_end` gives lies at or after `i`, neither the
/// opening nor the closing character of the bracket stands between `i` and
/// it, and one of the two stands at it where it lies in `s`.
pub proof fn lemma_body_end(s: Seq<char>, i: int, b: Bracket)
    requires
        0 <= i <= s.len(),
    ensures
        i <= body_end(s, i, b) <= s.len(),
        forall|j: int|
            i <= j < body_end(s, i, b) ==> s[j] != b.opening() && s[j] != b.closing(),
        body_end(s, i, b) < s.len() ==> s[body_end(s, i, b)] == b.opening() || s[body_end(
            s,
            i,
            b,
        )] == b.closing(),
    decreases s.len() - i,
{
    if i < s.len() && s[i] != b.opening() && s[i] != b.closing() {
        lemma_body_end(s, i + 1, b);
    }
}

/// The position that `next_separator` gives lies at or after `i`, no
/// separator starts between `i` and it, and one starts at it where it lies
/// in `s`.
pub proof fn lemma_next_separator(s: Seq<char>, i: int)
    requires
        0 <= i <= s.len(),
    ensures
        i <= next_separator(s, i) <= s.len(),
        forall|j: int| i <= j < next_separator(s, i) ==> !separator_at(s, j),
        next_separator(s, i) < s.len() ==> separator_at(s, next_separator(s, i)),
    decreases s.len() - i,
{
    if i < s.len() && !separator_at(s, i) {
        lemma_next_separator(s, i + 1);
    }
}

/// A fragment is not empty and lies inside the text.
pub proof fn lemma_fragment_extent(s: Seq<char>, i: int)
    requires
        fragment_at(s, i) is Some,
    ensures
        0 <= i < fragment_at(s, i).unwrap().1 <= s.len(),
{
    match bracket_of(s[i]) {
        Some(b) => {
            lemma_body_end(s, i + 1, b);
        },
        None => {
            lemma_word_end(s, i);
            assert(!ends_word(s[i]));
        },
    }
}

/// Whether `s`, from `i` on, is made of `texts` in this order and of
/// separators: any number of separators before the first text and behind the
/// last, one or more between each two neighbours, and nothing else.
pub open spec fn laid_out(s: Seq<char>, i: int, texts: Seq<Seq<char>>) -> bool
    decreases texts.len(),
{
    let from = skip_spaces(s, i);
    if texts.len() == 0 {
        from == s.len()
    } else {
        let to = from + texts[0].len();
        &&& 0 <= from && to <= s.len()
        &&& s.subrange(from, to) == texts[0]
        &&& texts.len() == 1 || (to < s.len() && is_separator(s[to]))
        &&& laid_out(s, to, texts.drop_first())
    }
}

/// Whether each of `texts` starts with a character that is no separator.
pub open spec fn solid(texts: Seq<Seq<char>>) -> bool {
    forall|j: int| 0 <= j < texts.len() ==> (#[trigger] texts[j]).len() > 0 && !is_separator(
        texts[j][0],
    )
}

/// A list has at least one item.
pub proof fn lemma_split_not_empty(s: Seq<char>, i: int)
    ensures
        split_from(s, i).len() >= 1,
{
}

/// Joining the items of a list with the separator gives the list back.
pub proof fn lemma_join_split(s: Seq<char>, i: int)
    requires
        0 <= i <= s.len(),
    ensures
        join(split_from(s, i), seq![',', ' ']) == s.subrange(i, s.len() as int),
    decreases s.len() - i,
{
    let sep = seq![',', ' '];
    let k = next_separator(s, i);
    lemma_next_separator(s, i);
    if k < s.len() {
        let parts = split_from(s, i);
        lemma_split_not_empty(s, k + 2);
        lemma_join_split(s, k + 2);
        assert(parts.drop_first() =~= split_from(s, k + 2));
        lemma_join_front(parts, sep);
        assert(parts[0] + sep + s.subrange(k + 2, s.len() as int) =~= s.subrange(
            i,
            s.len() as int,
        ));
    }
}

/// The text of the node of a fragment is the fragment as it stands in `s`.
pub proof fn lemma_fragment_text(s: Seq<char>, i: int)
    requires
        fragment_at(s, i) is Some,
    ensures
        node_text(fragment_at(s, i).unwrap().0) == s.subrange(i, fragment_at(s, i).unwrap().1),
        !is_separator(s[i]),
{
    lemma_fragment_extent(s, i);
    match bracket_of(s[i]) {
        Some(b) => {
            let (body, next) = bracket_at(s, i, b).unwrap();
            lemma_body_end(s, i + 1, b);
            if b == Bracket::Angle {
                lemma_join_split(body, 0);
                assert(body.subrange(0, body.len() as int) =~= body);
            }
            assert(seq![b.opening()] + body + seq![b.closing()] =~= s.subrange(i, next));
        },
        None => {},
    }
}

/// Where reading from `i` gets to the end of `s`, the text from `i` on is
/// made of the fragments read, as they are written, and of separators.
pub proof fn lemma_fragments_laid_out(s: Seq<char>, i: int)
    requires
        0 <= i <= s.len(),
        fragments_from(s, i).1 == s.len(),
    ensures
        laid_out(s, i, node_texts(fragments_from(s, i).0)),
        solid(node_texts(fragments_from(s, i).0)),
    decreases s.len() - i,
{
    let k = skip_spaces(s, i);
    lemma_skip_spaces(s, i);
    match fragment_at(s, k) {
        None => {},
        Some((node, next)) => {
            lemma_fragment_extent(s, k);
            lemma_fragment_text(s, k);
            let (rest, stop) = fragments_from(s, next);
            lemma_fragments_laid_out(s, next);
            let texts = node_texts(fragments_from(s, i).0);
            assert(texts =~= seq![node_text(node)] + node_texts(rest));
            assert(texts.drop_first() =~= node_texts(rest));
            assert(texts[0] == s.subrange(k, next));
            if rest.len() > 0 {
                lemma_skip_spaces(s, next);
            }
            assert forall|j: int| 0 <= j < texts.len() implies (#[trigger] texts[j]).len() > 0
                && !is_separator(texts[j][0]) by {
                if j > 0 {
                    assert(texts[j] == node_texts(rest)[j - 1]);
                }
            }
        },
    }
}

/// Only the part of `s` from `i` on decides whether it is laid out.
pub proof fn lemma_laid_out_suffix(s: Seq<char>, i: int, texts: Seq<Seq<char>>)
    requires
        0 <= i <= s.len(),
    ensures
        laid_out(s, i, texts) == laid_out(s.subrange(i, s.len() as int), 0, texts),
    decreases texts.len(),
{
    let t = s.subrange(i, s.len() as int);
    lemma_skip_suffix(s, i, 0);
    lemma_skip_spaces(s, i);
    lemma_skip_spaces(t, 0);
    let from = skip_spaces(s, i);
    if texts.len() > 0 {
        let to = from + texts[0].len();
        if to <= s.len() {
            lemma_laid_out_suffix(s, to, texts.drop_first());
            lemma_laid_out_suffix(t, to - i, texts.drop_first());
            assert(t.subrange(to - i, t.len() as int) =~= s.subrange(to, s.len() as int));
            assert(t.subrange(from - i, to - i) =~= s.subrange(from, to));
        }
    }
}

/// Passing over separators in a suffix of `s` is passing over them in `s`.
pub proof fn lemma_skip_suffix(s: Seq<char>, i: int, j: int)
    requires
        0 <= i <= s.len(),
        0 <= j <= s.len() - i,
    ensures
        skip_spaces(s.subrange(i, s.len() as int), j) == skip_spaces(s, i + j) - i,
    decreases s.len() - i - j,
{
    let t = s.subrange(i, s.len() as int);
    if j < t.len() && is_separator(t[j]) {
        lemma_skip_suffix(s, i, j + 1);
    }
}

/// Texts that start with no separator, written with one space between each
/// two neighbours, are laid out.
pub proof fn lemma_join_laid_out(texts: Seq<Seq<char>>)
    requires
        solid(texts),
    ensures
        laid_out(join(texts, seq![' ']), 0, texts),
    decreases texts.len(),
{
    let sep = seq![' '];
    let t = join(texts, sep);
    if texts.len() == 0 {
    } else if texts.len() == 1 {
        assert(texts[0].len() > 0 && !is_separator(texts[0][0]));
        assert(t.subrange(0, t.len() as int) =~= t);
        assert(skip_spaces(t, 0) == 0);
        assert(skip_spaces(t, t.len() as int) == t.len());
        assert(laid_out(t, t.len() as int, texts.drop_first()));
    } else {
        let rest = texts.drop_first();
        assert(texts[0].len() > 0 && !is_separator(texts[0][0]));
        assert(rest[0] == texts[1]);
        assert(rest[0].len() > 0 && !is_separator(rest[0][0]));
        assert forall|j: int| 0 <= j < rest.len() implies (#[trigger] rest[j]).len() > 0
            && !is_separator(rest[j][0]) by {
            assert(rest[j] == texts[j + 1]);
        }
        lemma_join_front(texts, sep);
        lemma_join_laid_out(rest);
        let to = texts[0].len() as int;
        let tail = join(rest, sep);
        assert(t == texts[0] + sep + tail);
        assert(t.subrange(0, to) =~= texts[0]);
        assert(t[to] == ' ');
        assert(t.subrange(to + 1, t.len() as int) =~= tail);
        lemma_laid_out_suffix(t, to + 1, rest);
        lemma_join_starts(rest, sep);
        assert(tail[0] == rest[0][0]);
        assert(t[to + 1] == tail[0]);
        assert(skip_spaces(t, to + 1) == to + 1);
        assert(skip_spaces(t, to) == to + 1);
        assert(laid_out(t, to, rest) == laid_out(t, to + 1, rest));
        assert(laid_out(t, to, rest));
        assert(skip_spaces(t, 0) == 0);
    }
}

/// A joined text starts with its first part, where that is not empty.
pub proof fn lemma_join_starts(parts: Seq<Seq<char>>, sep: Seq<char>)
    requires
        parts.len() > 0,
        parts[0].len() > 0,
    ensures
        join(parts, sep).len() > 0,
        join(parts, sep)[0] == parts[0][0],
    decreases parts.len(),
{
    if parts.len() > 1 {
        lemma_join_front(parts, sep);
    }
}

/// Where a bare word ends depends on the word and on the character behind
/// it alone: the same characters, followed by the end of the text or by a
/// character that ends a word, are a bare word of the same length in any
/// text.
proof fn lemma_word_end_local(s: Seq<char>, k: int, t: Seq<char>, p: int, n: int)
    requires
        0 <= n,
        0 <= k && k + n <= s.len(),
        0 <= p && p + n <= t.len(),
        s.subrange(k, k + n) == t.subrange(p, p + n),
        word_end(s, k) == k + n,
        p + n == t.len() || ends_word(t[p + n]),
    ensures
        word_end(t, p) == p + n,
    decreases n,
{
    if n > 0 {
        assert(s.subrange(k, k + n)[0] == s[k]);
        assert(t.subrange(p, p + n)[0] == t[p]);
        assert(s[k] == t[p]);
        assert(!ends_word(s[k]));
        assert(word_end(s, k + 1) == k + n);
        assert(s.subrange(k + 1, k + n) =~= s.subrange(k, k + n).subrange(1, n));
        assert(t.subrange(p + 1, p + n) =~= t.subrange(p, p + n).subrange(1, n));
        lemma_word_end_local(s, k + 1, t, p + 1, n - 1);
        assert(word_end(t, p) == word_end(t, p + 1));
    }
}

/// Where the body of a bracket ends depends on the body and on the
/// character behind it alone.
proof fn lemma_body_end_local(s: Seq<char>, k: int, t: Seq<char>, p: int, n: int, b: Bracket)
    requires
        0 <= n,
        0 <= k && k + n < s.len(),
        0 <= p && p + n < t.len(),
        s.subrange(k, k + n + 1) == t.subrange(p, p + n + 1),
        body_end(s, k, b) == k + n,
    ensures
        body_end(t, p, b) == p + n,
    decreases n,
{
    assert(s.subrange(k, k + n + 1)[0] == s[k]);
    assert(t.subrange(p, p + n + 1)[0] == t[p]);
    assert(s[k] == t[p]);
    if n > 0 {
        assert(s[k] != b.opening() && s[k] != b.closing());
        assert(body_end(s, k + 1, b) == k + n);
        assert(s.subrange(k + 1, k + n + 1) =~= s.subrange(k, k + n + 1).subrange(1, n + 1));
        assert(t.subrange(p + 1, p + n + 1) =~= t.subrange(p, p + n + 1).subrange(1, n + 1));
        lemma_body_end_local(s, k + 1, t, p + 1, n - 1, b);
        assert(body_end(t, p, b) == body_end(t, p + 1, b));
    } else {
        lemma_body_end(s, k + 1, b);
    }
}

/// Which fragment starts at a position depends on the characters of the
/// fragment and on the character behind it alone: the same characters,
/// followed by the end of the text or by a space, are the same fragment in
/// any text.
pub proof fn lemma_fragment_local(s: Seq<char>, k: int, t: Seq<char>, p: int)
    requires
        fragment_at(s, k) is Some,
        0 <= p,
        p + (fragment_at(s, k).unwrap().1 - k) <= t.len(),
        t.subrange(p, p + (fragment_at(s, k).unwrap().1 - k)) == s.subrange(
            k,
            fragment_at(s, k).unwrap().1,
        ),
        p + (fragment_at(s, k).unwrap().1 - k) == t.len() || t[p + (fragment_at(
            s,
            k,
        ).unwrap().1 - k)] == ' ',
    ensures
        fragment_at(t, p) == Some(
            (fragment_at(s, k).unwrap().0, p + (fragment_at(s, k).unwrap().1 - k)),
        ),
{
    let next = fragment_at(s, k).unwrap().1;
    let n = next - k;
    lemma_fragment_extent(s, k);
    assert(t.subrange(p, p + n)[0] == s.subrange(k, next)[0]);
    assert(t[p] == s[k]);
    match bracket_of(s[k]) {
        Some(b) => {
            lemma_body_end(s, k + 1, b);
            assert(s.subrange(k + 1, next) =~= s.subrange(k, next).subrange(1, n));
            assert(t.subrange(p + 1, p + n) =~= t.subrange(p, p + n).subrange(1, n));
            lemma_body_end_local(s, k + 1, t, p + 1, n - 2, b);
            assert(t.subrange(p, p + n)[n - 1] == s.subrange(k, next)[n - 1]);
            assert(t.subrange(p + 1, p + n - 1) =~= t.subrange(p, p + n).subrange(1, n - 1));
            assert(s.subrange(k + 1, next - 1) =~= s.subrange(k, next).subrange(1, n - 1));
        },
        None => {
            lemma_word_end_local(s, k, t, p, n);
        },
    }
}

/// Reading the fragments of a text that could be read to its end, written
/// out with one space between each two neighbours, gives the same fragments.
proof fn lemma_written_fragments(s: Seq<char>, i: int, t: Seq<char>, p: int)
    requires
        0 <= i <= s.len(),
        fragments_from(s, i).1 == s.len(),
        0 <= p <= t.len(),
        t.subrange(p, t.len() as int) == join(node_texts(fragments_from(s, i).0), seq![' ']),
    ensures
        fragments_from(t, p) == (fragments_from(s, i).0, t.len() as int),
    decreases s.len() - i,
{
    let sep = seq![' '];
    let k = skip_spaces(s, i);
    lemma_skip_spaces(s, i);
    match fragment_at(s, k) {
        None => {
            assert(node_texts(fragments_from(s, i).0) =~= Seq::<Seq<char>>::empty());
            assert(t.subrange(p, t.len() as int).len() == 0);
        },
        Some((node, next)) => {
            lemma_fragment_extent(s, k);
            lemma_fragment_text(s, k);
            lemma_fragments_laid_out(s, next);
            let rest = fragments_from(s, next).0;
            let texts = node_texts(fragments_from(s, i).0);
            let tail = t.subrange(p, t.len() as int);
            let f = s.subrange(k, next);
            let n = next - k;
            assert(texts =~= seq![node_text(node)] + node_texts(rest));
            assert(texts[0] == f);
            assert(texts.drop_first() =~= node_texts(rest));
            assert(tail.len() == t.len() - p);
            if rest.len() == 0 {
                assert(tail == f);
                assert(t.subrange(p, p + n) =~= f);
                assert(t[p] == tail[0]);
                lemma_fragment_local(s, k, t, p);
                assert(skip_spaces(t, p) == p);
                assert(fragments_from(t, t.len() as int) == (Seq::<NodeView>::empty(), t.len() as int));
                assert(fragments_from(s, i).0 =~= seq![node]);
                assert(fragments_from(t, p).0 =~= seq![node]);
            } else {
                lemma_join_front(texts, sep);
                let more = join(node_texts(rest), sep);
                assert(tail == f + sep + more);
                assert(t.subrange(p, p + n) =~= f);
                assert(t[p] == tail[0]);
                assert(t[p + n] == tail[n]);
                assert(t[p + n] == ' ');
                lemma_fragment_local(s, k, t, p);
                assert(skip_spaces(t, p) == p);
                lemma_join_starts(node_texts(rest), sep);
                assert(node_texts(rest)[0].len() > 0 && !is_separator(node_texts(rest)[0][0]));
                assert(t[p + n + 1] == tail[n + 1]);
                assert(tail[n + 1] == more[0]);
                assert(skip_spaces(t, p + n + 1) == p + n + 1);
                assert(skip_spaces(t, p + n) == p + n + 1);
                assert(t.subrange(p + n + 1, t.len() as int) =~= tail.subrange(
                    n + 1,
                    tail.len() as int,
                ));
                assert(tail.subrange(n + 1, tail.len() as int) =~= more);
                lemma_written_fragments(s, next, t, p + n + 1);
                assert(fragments_from(t, p + n) == fragments_from(t, p + n + 1));
                assert(fragments_from(t, p).0 =~= seq![node] + rest);
            }
        },
    }
}

/// A phrase that parses is made of its nodes, written in the bracket syntax
/// in their order, and of separators; and so is what the nodes give when they
/// are written out again with one space between each two neighbours. The
/// phrase and what is written out differ in the separators before, between
/// and behind the nodes, and in nothing else; and what is written out parses
/// to the same nodes.
pub proof fn lemma_parsed_round_trip(s: Seq<char>)
    requires
        parsed(s) is Some,
    ensures
        laid_out(s, 0, node_texts(parsed(s).unwrap())),
        laid_out(phrase_text(parsed(s).unwrap()), 0, node_texts(parsed(s).unwrap())),
        parsed(phrase_text(parsed(s).unwrap())) == parsed(s),
{
    lemma_fragments_laid_out(s, 0);
    lemma_join_laid_out(node_texts(parsed(s).unwrap()));
    let t = phrase_text(parsed(s).unwrap());
    assert(t.subrange(0, t.len() as int) =~= t);
    lemma_written_fragments(s, 0, t, 0);
}

} // verus!
