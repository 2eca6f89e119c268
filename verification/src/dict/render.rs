//! The groups of hits as text: a header and a table for each group.
//!
//! The tables are laid out by the `prettytable` crate and the brackets of a
//! phrase are painted by the `colored` crate. Whether `colored` paints
//! depends on the terminal and on a switch of that crate, so that a painted
//! phrase has more than one possible text.
//!
//! `prettytable` takes the escape sequences of colours out of the width of a
//! cell, and gives up on a cell in which it cannot tell them from the text.
//! So a cell must be well escaped: every escape character in it starts an
//! escape sequence that is closed. A phrase that holds an escape character
//! of its own cannot be shown.

use vstd::prelude::*;
use vstd::string::StringExecFns;
use crate::dict::entry::{entry_views, DictEntryView, DictWord};
use crate::dict::grouped::{
    class_group_views, count_group_views, ClassGroupView, CountGroupView,
    DictEntryWordClassGroup, DictEntryWordCountGroup, DictQueryResultGrouped, GroupedView,
    WordClassesGroup,
};
use crate::dict::word_class::WordClass;
use crate::parse::word_ast::{
    node_text, node_texts, node_views, phrase_text, NodeView, WordNode, WordNodes,
};
use crate::text::{
    decimal, decimal_string, holds_char, join, join_strings, lemma_concat_contains,
    lemma_decimal_digits, lemma_join_holds, lemma_join_lacks, views_of,
};

verus! {

/// The text that `prettytable` lays out for a table with these rows of
/// cells, in its format without border and without lines between the rows.
pub uninterp spec fn entries_table_text(rows: Seq<Seq<Seq<char>>>) -> Seq<char>;

/// The text that `prettytable` lays out for a table of one column with the
/// two rows `title` and `body`, in its format without border, with no
/// padding.
pub uninterp spec fn titled_table_text(title: Seq<char>, body: Seq<char>) -> Seq<char>;

/// The text that `prettytable` lays out for a table of one column with the
/// rows `parts`, in its clean format, with no padding and a line of spaces
/// between the rows.
pub uninterp spec fn stacked_table_text(parts: Seq<Seq<char>>) -> Seq<char>;

/// The views of the rows of a table.
pub open spec fn row_views(rows: Seq<Vec<String>>) -> Seq<Seq<Seq<char>>> {
    rows.map_values(|row: Vec<String>| views_of(row@))
}

/// The character that starts an escape sequence of a terminal.
pub const ESCAPE: char = '\u{1b}';

/// Whether `c` may stand in an escape sequence between its `[` and its `m`:
/// a decimal digit or a semicolon.
pub open spec fn is_parameter(c: char) -> bool {
    ('0' <= c && c <= '9') || c == ';'
}

/// Whether an escape character stands at `i`.
pub open spec fn escape_at(s: Seq<char>, i: int) -> bool {
    0 <= i < s.len() && s[i] == ESCAPE
}

/// Whether an escape sequence stands from `i` to `e`: the escape character,
/// `[`, digits and semicolons, and `m`.
pub open spec fn sequence_at(s: Seq<char>, i: int, e: int) -> bool {
    &&& 0 <= i && i + 1 < e < s.len()
    &&& s[i] == ESCAPE
    &&& s[i + 1] == '['
    &&& s[e] == 'm'
    &&& forall|j: int| i + 1 < j < e ==> is_parameter(#[trigger] s[j])
}

/// Whether `s` is well escaped: every escape character in it starts an
/// escape sequence of the form escape, `[`, digits and semicolons, `m`.
pub open spec fn well_escaped(s: Seq<char>) -> bool {
    forall|i: int| #[trigger] escape_at(s, i) ==> exists|e: int| #[trigger] sequence_at(s, i, e)
}

/// Whether each of `cells` is well escaped.
pub open spec fn cells_well_escaped(cells: Seq<Seq<char>>) -> bool {
    forall|i: int| 0 <= i < cells.len() ==> well_escaped(#[trigger] cells[i])
}

/// Whether each cell of each of `rows` is well escaped.
pub open spec fn rows_well_escaped(rows: Seq<Seq<Seq<char>>>) -> bool {
    forall|i: int| 0 <= i < rows.len() ==> cells_well_escaped(#[trigger] rows[i])
}

/// Calls `prettytable::Table::init`, `set_format` with
/// `FORMAT_NO_BORDER_LINE_SEPARATOR`, and `to_string`: the table of `rows`
/// as text. The text depends on the cells alone.
///
/// `prettytable` measures each line of a cell: it counts the characters from
/// the `[` behind an escape character to the next `m`, and stops where they
/// are more than the width of the line. In a cell that is well escaped these
/// are `[`, digits, semicolons and `m`, each of the width one and each
/// followed by another of them or by the text, so that they are never more.
/// The table is made of the lines of the cells as they are, and of spaces,
/// line feeds and the characters of the format between them: it is well
/// escaped as the cells are.
#[verifier::external_body]
fn entries_table(rows: &Vec<Vec<String>>) -> (r: String)
    requires
        rows_well_escaped(row_views(rows@)),
    ensures
        r@ == entries_table_text(row_views(rows@)),
        well_escaped(r@),
{
    let mut table = prettytable::Table::init(
        rows.iter().map(
            |row| prettytable::Row::new(row.iter().map(|c| prettytable::Cell::new(c)).collect()),
        ).collect(),
    );
    table.set_format(*prettytable::format::consts::FORMAT_NO_BORDER_LINE_SEPARATOR);
    table.to_string()
}

/// Calls `prettytable::Table::init`, `set_format` with `FORMAT_NO_BORDER`
/// and a padding of zero, and `to_string`: the table with the rows `title`
/// and `body` as text. The text depends on the two cells alone. As for
/// `entries_table`, the cells must be well escaped, and the table then is.
#[verifier::external_body]
fn titled_table(title: &str, body: &str) -> (r: String)
    requires
        well_escaped(title@),
        well_escaped(body@),
    ensures
        r@ == titled_table_text(title@, body@),
        well_escaped(r@),
{
    let mut table = prettytable::Table::init(
        vec![
            prettytable::Row::new(vec![prettytable::Cell::new(title)]),
            prettytable::Row::new(vec![prettytable::Cell::new(body)]),
        ],
    );
    let mut format = *prettytable::format::consts::FORMAT_NO_BORDER;
    format.padding(0, 0);
    table.set_format(format);
    table.to_string()
}

/// Calls `prettytable::Table::init`, `set_format` with `FORMAT_CLEAN`, a
/// separator of spaces between the rows and a padding of zero, and
/// `to_string`: the table with the rows `parts` as text. The text depends on
/// the cells alone. As for `entries_table`, the cells must be well escaped,
/// and the table then is.
#[verifier::external_body]
fn stacked_table(parts: &Vec<String>) -> (r: String)
    requires
        cells_well_escaped(views_of(parts@)),
    ensures
        r@ == stacked_table_text(views_of(parts@)),
        well_escaped(r@),
{
    let mut table = prettytable::Table::init(
        parts.iter().map(|p| prettytable::Row::new(vec![prettytable::Cell::new(p)])).collect(),
    );
    let mut format = *prettytable::format::consts::FORMAT_CLEAN;
    format.separator(
        prettytable::format::LinePosition::Intern,
        prettytable::format::LineSeparator::new(' ', ' ', ' ', ' '),
    );
    format.padding(0, 0);
    table.set_format(format);
    table.to_string()
}

/// The escape sequence that sets the style with the code `code`.
pub open spec fn style_sequence(code: Seq<char>) -> Seq<char> {
    seq![ESCAPE, '['] + code + seq!['m']
}

/// The escape sequence that resets the style.
pub open spec fn reset_sequence() -> Seq<char> {
    seq![ESCAPE, '[', '0', 'm']
}

/// Whether `painted` is `text` as `colored` writes it in the colour with the
/// code `code`: between the sequence that sets the colour and the one that
/// resets it where `colored` paints, and as it is where it does not. Where
/// the switch of `colored` is turned while it writes, the text may come
/// without the first sequence. A text that holds an escape character may be
/// changed in other ways.
pub open spec fn may_be_painted(painted: Seq<char>, text: Seq<char>, code: Seq<char>) -> bool {
    ||| text.contains(ESCAPE)
    ||| painted == text
    ||| painted == text + reset_sequence()
    ||| painted == style_sequence(code) + text + reset_sequence()
}

/// A text that holds no escape character is well escaped.
pub proof fn lemma_plain_is_well_escaped(s: Seq<char>)
    requires
        !s.contains(ESCAPE),
    ensures
        well_escaped(s),
{
    assert forall|i: int| #[trigger] escape_at(s, i) implies exists|e: int| #[trigger]
        sequence_at(s, i, e) by {
        assert(s[i] == ESCAPE);
        assert(s.contains(ESCAPE));
    }
}

/// A text made of two texts that are well escaped is well escaped.
pub proof fn lemma_concat_well_escaped(a: Seq<char>, b: Seq<char>)
    requires
        well_escaped(a),
        well_escaped(b),
    ensures
        well_escaped(a + b),
{
    let s = a + b;
    assert forall|i: int| #[trigger] escape_at(s, i) implies exists|e: int| #[trigger]
        sequence_at(s, i, e) by {
        if i < a.len() {
            assert(escape_at(a, i));
            let e = choose|e: int| sequence_at(a, i, e);
            assert forall|j: int| i + 1 < j < e implies is_parameter(#[trigger] s[j]) by {
                assert(s[j] == a[j]);
            }
            assert(s[i + 1] == a[i + 1] && s[e] == a[e]);
            assert(sequence_at(s, i, e));
        } else {
            let k = i - a.len();
            assert(s[i] == b[k]);
            assert(escape_at(b, k));
            let e = choose|e: int| sequence_at(b, k, e);
            assert forall|j: int| i + 1 < j < e + a.len() implies is_parameter(
                #[trigger] s[j],
            ) by {
                assert(s[j] == b[j - a.len()]);
            }
            assert(s[i + 1] == b[k + 1] && s[e + a.len()] == b[e]);
            assert(sequence_at(s, i, e + a.len()));
        }
    }
}

/// The sequence that sets a style with a code of two digits, and the
/// sequence that resets the style, are well escaped.
pub proof fn lemma_sequences_well_escaped(code: Seq<char>)
    requires
        code.len() == 2,
        is_parameter(code[0]),
        is_parameter(code[1]),
    ensures
        well_escaped(style_sequence(code)),
        well_escaped(reset_sequence()),
{
    let style = style_sequence(code);
    assert(style.len() == 5);
    assert(style[0] == ESCAPE && style[1] == '[' && style[2] == code[0] && style[3] == code[1]
        && style[4] == 'm');
    assert forall|i: int| #[trigger] escape_at(style, i) implies exists|e: int| #[trigger]
        sequence_at(style, i, e) by {
        assert(i == 0);
        assert forall|j: int| 1 < j < 4 implies is_parameter(#[trigger] style[j]) by {
            assert(j == 2 || j == 3);
        }
        assert(sequence_at(style, 0, 4));
    }
    let reset = reset_sequence();
    assert forall|i: int| #[trigger] escape_at(reset, i) implies exists|e: int| #[trigger]
        sequence_at(reset, i, e) by {
        assert(i == 0);
        assert forall|j: int| 1 < j < 3 implies is_parameter(#[trigger] reset[j]) by {
            assert(j == 2);
        }
        assert(sequence_at(reset, 0, 3));
    }
}

/// A text without an escape character, as `colored` writes it in a colour
/// with a code of two digits, is well escaped.
pub proof fn lemma_painted_is_well_escaped(painted: Seq<char>, text: Seq<char>, code: Seq<char>)
    requires
        may_be_painted(painted, text, code),
        !text.contains(ESCAPE),
        code.len() == 2,
        is_parameter(code[0]),
        is_parameter(code[1]),
    ensures
        well_escaped(painted),
{
    lemma_plain_is_well_escaped(text);
    lemma_sequences_well_escaped(code);
    lemma_concat_well_escaped(text, reset_sequence());
    lemma_concat_well_escaped(style_sequence(code), text);
    lemma_concat_well_escaped(style_sequence(code) + text, reset_sequence());
}

/// Texts that are well escaped, joined by a separator that is well escaped,
/// are well escaped.
pub proof fn lemma_join_well_escaped(parts: Seq<Seq<char>>, sep: Seq<char>)
    requires
        cells_well_escaped(parts),
        well_escaped(sep),
    ensures
        well_escaped(join(parts, sep)),
    decreases parts.len(),
{
    if parts.len() == 0 {
        lemma_plain_is_well_escaped(Seq::<char>::empty());
    } else if parts.len() == 1 {
        assert(well_escaped(parts[0]));
    } else {
        let init = parts.drop_last();
        assert forall|i: int| 0 <= i < init.len() implies well_escaped(#[trigger] init[i]) by {
            assert(init[i] == parts[i]);
        }
        lemma_join_well_escaped(init, sep);
        assert(well_escaped(parts[parts.len() - 1]));
        lemma_concat_well_escaped(join(init, sep), sep);
        lemma_concat_well_escaped(join(init, sep) + sep, parts.last());
    }
}

/// Calls `colored::Colorize::bright_red` and `to_string`: `text` in bright
/// red, with the code 91, where `colored` paints. Whether it does depends on
/// the environment and on the switch of that crate.
#[verifier::external_body]
fn bright_red(text: &str) -> (r: String)
    ensures
        may_be_painted(r@, text@, seq!['9', '1']),
{
    colored::Colorize::bright_red(text).to_string()
}

/// Calls `colored::Colorize::bright_green` and `to_string`: `text` in bright
/// green, with the code 92, where `colored` paints. Whether it does depends
/// on the environment and on the switch of that crate.
#[verifier::external_body]
fn bright_green(text: &str) -> (r: String)
    ensures
        may_be_painted(r@, text@, seq!['9', '2']),
{
    colored::Colorize::bright_green(text).to_string()
}

/// Calls `colored::Colorize::bright_blue` and `to_string`: `text` in bright
/// blue, with the code 94, where `colored` paints. Whether it does depends
/// on the environment and on the switch of that crate.
#[verifier::external_body]
fn bright_blue(text: &str) -> (r: String)
    ensures
        may_be_painted(r@, text@, seq!['9', '4']),
{
    colored::Colorize::bright_blue(text).to_string()
}

/// Calls `colored::Colorize::bright_cyan` and `to_string`: `text` in bright
/// cyan, with the code 96, where `colored` paints. Whether it does depends
/// on the environment and on the switch of that crate.
#[verifier::external_body]
fn bright_cyan(text: &str) -> (r: String)
    ensures
        may_be_painted(r@, text@, seq!['9', '6']),
{
    colored::Colorize::bright_cyan(text).to_string()
}

/// Whether `text` shows the node `node`, painted by its kind: acronyms in
/// bright red, optional parts in bright green, comments in bright blue,
/// gender tags in bright cyan, in the bracket syntax each. A bare word is
/// shown as it is.
pub open spec fn shows_node(text: Seq<char>, node: NodeView) -> bool {
    match node {
        NodeView::Word(_) => text == node_text(node),
        NodeView::Angle(_) => may_be_painted(text, node_text(node), seq!['9', '1']),
        NodeView::Round(_) => may_be_painted(text, node_text(node), seq!['9', '2']),
        NodeView::Square(_) => may_be_painted(text, node_text(node), seq!['9', '4']),
        NodeView::Curly(_) => may_be_painted(text, node_text(node), seq!['9', '6']),
    }
}

/// Whether `parts` shows the nodes of `nodes`, one by one.
pub open spec fn paints(parts: Seq<Seq<char>>, nodes: Seq<NodeView>) -> bool {
    &&& parts.len() == nodes.len()
    &&& forall|i: int| 0 <= i < nodes.len() ==> shows_node(#[trigger] parts[i], nodes[i])
}

/// Whether `text` shows the phrase `nodes` with its brackets painted: the
/// nodes, each painted by its kind, with one space between each two
/// neighbours.
pub open spec fn shows_phrase(text: Seq<char>, nodes: Seq<NodeView>) -> bool {
    exists|parts: Seq<Seq<char>>| #[trigger] paints(parts, nodes) && text == join(parts, seq![' '])
}

/// Whether the phrase `nodes` can be shown: it can where it holds no escape
/// character.
pub open spec fn is_plain(nodes: Seq<NodeView>) -> bool {
    !phrase_text(nodes).contains(ESCAPE)
}

/// A node that holds no escape character is well escaped however it is
/// shown.
pub proof fn lemma_shown_node_is_well_escaped(text: Seq<char>, node: NodeView)
    requires
        shows_node(text, node),
        !node_text(node).contains(ESCAPE),
    ensures
        well_escaped(text),
{
    match node {
        NodeView::Word(_) => {
            lemma_plain_is_well_escaped(text);
        },
        NodeView::Angle(_) => {
            lemma_painted_is_well_escaped(text, node_text(node), seq!['9', '1']);
        },
        NodeView::Round(_) => {
            lemma_painted_is_well_escaped(text, node_text(node), seq!['9', '2']);
        },
        NodeView::Square(_) => {
            lemma_painted_is_well_escaped(text, node_text(node), seq!['9', '4']);
        },
        NodeView::Curly(_) => {
            lemma_painted_is_well_escaped(text, node_text(node), seq!['9', '6']);
        },
    }
}

impl WordNode {
    /// The node in the bracket syntax, painted by its kind: acronyms bright
    /// red, optional parts bright green, comments bright blue, gender tags
    /// bright cyan. A bare word is not painted.
    pub fn to_colored_string(&self) -> (r: String)
        ensures
            shows_node(r@, self@),
            !node_text(self@).contains(ESCAPE) ==> well_escaped(r@),
    {
        proof {
            if !node_text(self@).contains(ESCAPE) {
                assert forall|text: Seq<char>| shows_node(text, self@) implies well_escaped(
                    text,
                ) by {
                    lemma_shown_node_is_well_escaped(text, self@);
                }
            }
        }
        match self {
            WordNode::Word(_) => self.to_string(),
            WordNode::Angle(_) => bright_red(self.to_string().as_str()),
            WordNode::Round(_) => bright_green(self.to_string().as_str()),
            WordNode::Square(_) => bright_blue(self.to_string().as_str()),
            WordNode::Curly(_) => bright_cyan(self.to_string().as_str()),
        }
    }
}

impl WordNodes {
    /// The phrase with its brackets painted: its nodes, each painted by its
    /// kind, with one space between each two neighbours.
    pub fn to_colored_string(&self) -> (r: String)
        ensures
            shows_phrase(r@, self@),
            is_plain(self@) ==> well_escaped(r@),
    {
        let nodes = self.nodes();
        let ghost all = node_views(nodes@);
        let mut parts: Vec<String> = Vec::new();
        let mut i: usize = 0;
        while i < nodes.len()
            invariant
                i <= nodes.len(),
                all == node_views(nodes@),
                parts.len() == i,
                forall|j: int| 0 <= j < i ==> shows_node(#[trigger] views_of(parts@)[j], all[j]),
                is_plain(all) ==> cells_well_escaped(views_of(parts@)),
            decreases nodes.len() - i,
        {
            let ghost before = parts@;
            let part = nodes[i].to_colored_string();
            parts.push(part);
            proof {
                assert(views_of(parts@) =~= views_of(before).push(part@));
                assert(all[i as int] == nodes@[i as int]@);
                assert forall|j: int| 0 <= j < i + 1 implies shows_node(
                    #[trigger] views_of(parts@)[j],
                    all[j],
                ) by {
                    if j < i {
                        assert(views_of(parts@)[j] == views_of(before)[j]);
                    }
                }
                if is_plain(all) {
                    if node_text(all[i as int]).contains(ESCAPE) {
                        assert(node_texts(all)[i as int] == node_text(all[i as int]));
                        lemma_join_holds(node_texts(all), seq![' '], i as int, ESCAPE);
                    }
                    assert forall|j: int| 0 <= j < i + 1 implies well_escaped(
                        #[trigger] views_of(parts@)[j],
                    ) by {
                        if j < i {
                            assert(views_of(parts@)[j] == views_of(before)[j]);
                        }
                    }
                }
            }
            i += 1;
        }
        proof {
            reveal_strlit(" ");
            assert(" "@ =~= seq![' ']);
            assert(paints(views_of(parts@), self@));
            if is_plain(self@) {
                assert(!seq![' '].contains(ESCAPE));
                lemma_plain_is_well_escaped(seq![' ']);
                lemma_join_well_escaped(views_of(parts@), seq![' ']);
            }
        }
        join_strings(&parts, " ")
    }
}

impl DictWord {
    /// The phrase with its brackets painted.
    pub fn to_colored_string(&self) -> (r: String)
        ensures
            shows_phrase(r@, self@.word_nodes),
            is_plain(self@.word_nodes) ==> well_escaped(r@),
    {
        self.word_nodes.to_colored_string()
    }

    /// Whether the phrase can be shown: it can where it holds no escape
    /// character.
    pub fn is_plain(&self) -> (r: bool)
        ensures
            r == is_plain(self@.word_nodes),
    {
        !holds_char(self.to_string().as_str(), ESCAPE)
    }
}

/// The names of `classes`, in order.
pub open spec fn class_names(classes: Seq<WordClass>) -> Seq<Seq<char>> {
    classes.map_values(|c: WordClass| c.name())
}

/// The word classes of an entry as they are shown: their names with a comma
/// and a space between each two neighbours.
pub open spec fn class_list(classes: Seq<WordClass>) -> Seq<char> {
    join(class_names(classes), seq![',', ' '])
}

/// The header of the group with the word count `count` and the word class
/// group `group`: the name of the word class group, and before it the word
/// count and `Words:` where the word count is above one.
pub open spec fn header_text(count: nat, group: WordClassesGroup) -> Seq<char> {
    if count <= 1 {
        group.name()
    } else {
        decimal(count) + " Words: "@ + group.name()
    }
}

/// The rows of the table of a group: for each entry its left phrase, its
/// right phrase and its word classes.
pub open spec fn group_rows(
    entries: Seq<DictEntryView>,
    left: Seq<Seq<char>>,
    right: Seq<Seq<char>>,
) -> Seq<Seq<Seq<char>>> {
    Seq::new(
        entries.len(),
        |i: int| seq![left[i], right[i], class_list(entries[i].word_classes)],
    )
}

/// The text of a group of which the phrases are shown as `left` and `right`:
/// its header, and under it the table of its entries.
pub open spec fn class_group_text(
    group: ClassGroupView,
    left: Seq<Seq<char>>,
    right: Seq<Seq<char>>,
) -> Seq<char> {
    titled_table_text(
        header_text(group.word_count, group.word_class_group),
        entries_table_text(group_rows(group.entries, left, right)),
    )
}

/// Whether `left` and `right` show the phrases of `entries` with their
/// brackets painted.
pub open spec fn shows_phrases(
    entries: Seq<DictEntryView>,
    left: Seq<Seq<char>>,
    right: Seq<Seq<char>>,
) -> bool {
    &&& left.len() == entries.len()
    &&& right.len() == entries.len()
    &&& forall|i: int|
        0 <= i < entries.len() ==> shows_phrase(
            #[trigger] left[i],
            entries[i].left_word.word_nodes,
        )
    &&& forall|i: int|
        0 <= i < entries.len() ==> shows_phrase(
            #[trigger] right[i],
            entries[i].right_word.word_nodes,
        )
}

/// Whether `text` shows a group by word class group: its header, and under
/// it the table with a row for each of its entries, of the left phrase, the
/// right phrase and the word classes.
pub open spec fn shows_class_group(text: Seq<char>, group: ClassGroupView) -> bool {
    exists|left: Seq<Seq<char>>, right: Seq<Seq<char>>|
        shows_phrases(group.entries, left, right) && text == #[trigger] class_group_text(
            group,
            left,
            right,
        )
}

/// Whether each of `parts` shows the group of `groups` at its place.
pub open spec fn show_class_groups(parts: Seq<Seq<char>>, groups: Seq<ClassGroupView>) -> bool {
    &&& parts.len() == groups.len()
    &&& forall|i: int| 0 <= i < groups.len() ==> shows_class_group(#[trigger] parts[i], groups[i])
}

/// Whether `text` shows a group by word count: its groups by word class
/// group, one under the other, with an empty line between each two
/// neighbours.
pub open spec fn shows_count_group(text: Seq<char>, group: CountGroupView) -> bool {
    exists|parts: Seq<Seq<char>>| #[trigger]
        show_class_groups(parts, group.word_class_groups) && text == stacked_table_text(parts)
}

/// Whether each of `parts` shows the group of `groups` at its place.
pub open spec fn show_count_groups(parts: Seq<Seq<char>>, groups: Seq<CountGroupView>) -> bool {
    &&& parts.len() == groups.len()
    &&& forall|i: int| 0 <= i < groups.len() ==> shows_count_group(#[trigger] parts[i], groups[i])
}

/// Whether `text` shows the hits of a query in groups: the groups by word
/// count, one under the other, with an empty line between each two
/// neighbours.
pub open spec fn shows_grouped(text: Seq<char>, grouped: GroupedView) -> bool {
    exists|parts: Seq<Seq<char>>| #[trigger]
        show_count_groups(parts, grouped.word_count_groups) && text == stacked_table_text(parts)
}

/// Whether an entry can be shown: it can where neither of its phrases holds
/// an escape character.
pub open spec fn plain_entry(entry: DictEntryView) -> bool {
    is_plain(entry.left_word.word_nodes) && is_plain(entry.right_word.word_nodes)
}

impl ClassGroupView {
    /// Whether the group can be shown: it can where each of its entries
    /// can.
    pub open spec fn printable(self) -> bool {
        forall|i: int| 0 <= i < self.entries.len() ==> plain_entry(#[trigger] self.entries[i])
    }
}

impl CountGroupView {
    /// Whether the group can be shown: it can where each of its groups can.
    pub open spec fn printable(self) -> bool {
        forall|i: int|
            0 <= i < self.word_class_groups.len() ==> (
            #[trigger] self.word_class_groups[i]).printable()
    }
}

impl GroupedView {
    /// Whether the groups can be shown: they can where each of them can.
    pub open spec fn printable(self) -> bool {
        forall|i: int|
            0 <= i < self.word_count_groups.len() ==> (
            #[trigger] self.word_count_groups[i]).printable()
    }
}

/// The name of a word class holds no escape character.
pub proof fn lemma_class_name_plain(class: WordClass)
    ensures
        !class.name().contains(ESCAPE),
{
    reveal_strlit("Adjective");
    reveal_strlit("Adverb");
    reveal_strlit("Past");
    reveal_strlit("Verb");
    reveal_strlit("PresentParticiple");
    reveal_strlit("Preposition");
    reveal_strlit("Conjunction");
    reveal_strlit("Pronoun");
    reveal_strlit("Prefix");
    reveal_strlit("Suffix");
    reveal_strlit("Noun");
}

/// The word classes of an entry as they are shown hold no escape character.
pub proof fn lemma_class_list_plain(classes: Seq<WordClass>)
    ensures
        !class_list(classes).contains(ESCAPE),
{
    let names = class_names(classes);
    assert forall|i: int| 0 <= i < names.len() implies !(#[trigger] names[i]).contains(
        ESCAPE,
    ) by {
        lemma_class_name_plain(classes[i]);
    }
    assert(!seq![',', ' '].contains(ESCAPE));
    lemma_join_lacks(names, seq![',', ' '], ESCAPE);
}

/// The header of a group holds no escape character.
pub proof fn lemma_header_plain(count: nat, group: WordClassesGroup)
    ensures
        !header_text(count, group).contains(ESCAPE),
{
    reveal_strlit("Verbs");
    reveal_strlit("Nouns");
    reveal_strlit("Others");
    reveal_strlit(" Words: ");
    assert(!group.name().contains(ESCAPE));
    if count > 1 {
        lemma_decimal_digits(count);
        assert(!decimal(count).contains(ESCAPE));
        assert(!" Words: "@.contains(ESCAPE));
        lemma_concat_contains(decimal(count), " Words: "@, ESCAPE);
        lemma_concat_contains(decimal(count) + " Words: "@, group.name(), ESCAPE);
    }
}

/// The word classes of an entry as they are shown.
pub fn word_class_list(classes: &Vec<WordClass>) -> (r: String)
    ensures
        r@ == class_list(classes@),
        well_escaped(r@),
{
    let mut names: Vec<String> = Vec::new();
    let mut i: usize = 0;
    while i < classes.len()
        invariant
            i <= classes.len(),
            views_of(names@) == class_names(classes@.take(i as int)),
        decreases classes.len() - i,
    {
        let ghost before = names@;
        let name = classes[i].to_string();
        names.push(name);
        proof {
            assert(views_of(names@) =~= views_of(before).push(name@));
            assert(classes@.take(i + 1) =~= classes@.take(i as int).push(classes@[i as int]));
            assert(class_names(classes@.take(i + 1)) =~= class_names(
                classes@.take(i as int),
            ).push(classes@[i as int].name()));
        }
        i += 1;
    }
    assert(classes@.take(classes.len() as int) =~= classes@);
    proof {
        reveal_strlit(", ");
        assert(", "@ =~= seq![',', ' ']);
        lemma_class_list_plain(classes@);
        lemma_plain_is_well_escaped(class_list(classes@));
    }
    join_strings(&names, ", ")
}

/// The header of the group with the word count `count` and the word class
/// group `group`.
pub fn group_header(count: usize, group: WordClassesGroup) -> (r: String)
    ensures
        r@ == header_text(count as nat, group),
        well_escaped(r@),
{
    proof {
        lemma_header_plain(count as nat, group);
        lemma_plain_is_well_escaped(header_text(count as nat, group));
    }
    if count <= 1 {
        group.to_string()
    } else {
        let mut r = decimal_string(count);
        r.append(" Words: ");
        r.append(group.to_string().as_str());
        r
    }
}

/// The text of a group with the header `header` and the rows `rows`: the
/// header, and under it the table of the rows. The header and the cells of
/// the rows must be well escaped, and the text then is.
pub fn layout_group(header: &str, rows: &Vec<Vec<String>>) -> (r: String)
    requires
        well_escaped(header@),
        rows_well_escaped(row_views(rows@)),
    ensures
        r@ == titled_table_text(header@, entries_table_text(row_views(rows@))),
        well_escaped(r@),
{
    let body = entries_table(rows);
    titled_table(header, body.as_str())
}

/// The text of groups that are shown as `parts`: one under the other, with
/// an empty line between each two neighbours. The parts must be well
/// escaped, and the text then is.
pub fn layout_stack(parts: &Vec<String>) -> (r: String)
    requires
        cells_well_escaped(views_of(parts@)),
    ensures
        r@ == stacked_table_text(views_of(parts@)),
        well_escaped(r@),
{
    stacked_table(parts)
}

/// Whether `s` is well escaped.
pub fn is_well_escaped(s: &str) -> (r: bool)
    ensures
        r == well_escaped(s@),
{
    let cs = crate::text::chars_of(s);
    let mut i: usize = 0;
    while i < cs.len()
        invariant
            i <= cs.len(),
            cs@ == s@,
            forall|k: int| k < i && #[trigger] escape_at(cs@, k) ==> exists|e: int| #[trigger]
                sequence_at(cs@, k, e),
            forall|k: int, e: int| k < i && #[trigger] sequence_at(cs@, k, e) ==> e < i,
        decreases cs.len() - i,
    {
        if cs[i] == ESCAPE {
            if i + 1 >= cs.len() || cs[i + 1] != '[' {
                assert(escape_at(cs@, i as int));
                assert(forall|e: int| !sequence_at(cs@, i as int, e));
                return false;
            }
            let mut e: usize = i + 2;
            while e < cs.len() && (('0' <= cs[e] && cs[e] <= '9') || cs[e] == ';')
                invariant
                    i + 2 <= e <= cs.len(),
                    forall|j: int| i + 1 < j < e ==> is_parameter(#[trigger] cs@[j]),
                decreases cs.len() - e,
            {
                e += 1;
            }
            if e >= cs.len() || cs[e] != 'm' {
                assert(escape_at(cs@, i as int));
                assert forall|x: int| !sequence_at(cs@, i as int, x) by {
                    if sequence_at(cs@, i as int, x) {
                        if x < e {
                            assert(is_parameter(cs@[x]));
                        } else if x > e {
                            assert(is_parameter(cs@[e as int]));
                        }
                    }
                }
                return false;
            }
            assert(sequence_at(cs@, i as int, e as int));
            assert forall|k: int, x: int| k < e + 1 && #[trigger] sequence_at(
                cs@,
                k,
                x,
            ) implies x < e + 1 by {
                if k >= i {
                    if k > i {
                        assert(is_parameter(cs@[k]));
                    } else if x > e {
                        assert(is_parameter(cs@[e as int]));
                    }
                }
            }
            assert forall|k: int| k < e + 1 && #[trigger] escape_at(cs@, k) implies exists|
                x: int,
            | #[trigger] sequence_at(cs@, k, x) by {
                if k > i {
                    assert(is_parameter(cs@[k]) || k == i + 1 || k == e);
                }
            }
            i = e + 1;
        } else {
            assert forall|k: int, x: int| k < i + 1 && #[trigger] sequence_at(
                cs@,
                k,
                x,
            ) implies x < i + 1 by {
                if k < i {
                } else {
                    assert(cs@[k] == ESCAPE);
                }
            }
            i += 1;
        }
    }
    true
}

impl DictEntryWordClassGroup {
    /// Whether the group can be shown: it can where none of its phrases
    /// holds an escape character.
    pub fn is_printable(&self) -> (r: bool)
        ensures
            r == self@.printable(),
    {
        let entries = self.entries();
        let ghost all = entry_views(entries@);
        let mut i: usize = 0;
        while i < entries.len()
            invariant
                i <= entries.len(),
                all == entry_views(entries@),
                all == self@.entries,
                forall|j: int| 0 <= j < i ==> plain_entry(#[trigger] all[j]),
            decreases entries.len() - i,
        {
            assert(all[i as int] == entries@[i as int]@);
            if !entries[i].left_word.is_plain() || !entries[i].right_word.is_plain() {
                return false;
            }
            i += 1;
        }
        true
    }

    /// The group as text: its header, and under it a table with a row for
    /// each of its entries, of the left phrase, the right phrase and the
    /// word classes. The brackets of the phrases are painted. The group must
    /// be one that can be shown.
    pub fn to_string(&self) -> (r: String)
        requires
            self@.printable(),
        ensures
            shows_class_group(r@, self@),
            well_escaped(r@),
    {
        let entries = self.entries();
        let ghost all = entry_views(entries@);
        let ghost mut left: Seq<Seq<char>> = Seq::empty();
        let ghost mut right: Seq<Seq<char>> = Seq::empty();
        let mut rows: Vec<Vec<String>> = Vec::new();
        let mut i: usize = 0;
        while i < entries.len()
            invariant
                i <= entries.len(),
                all == entry_views(entries@),
                all == self@.entries,
                self@.printable(),
                shows_phrases(all.take(i as int), left, right),
                row_views(rows@) == group_rows(all.take(i as int), left, right),
                rows_well_escaped(row_views(rows@)),
            decreases entries.len() - i,
        {
            let entry = &entries[i];
            proof {
                assert(all[i as int] == entry@);
                assert(plain_entry(all[i as int]));
            }
            let l = entry.left_word.to_colored_string();
            let r = entry.right_word.to_colored_string();
            let c = word_class_list(&entry.word_classes);
            let ghost rows_before = rows@;
            let ghost left_before = left;
            let ghost right_before = right;
            let mut row: Vec<String> = Vec::new();
            proof {
                left = left.push(l@);
                right = right.push(r@);
            }
            row.push(l);
            row.push(r);
            row.push(c);
            rows.push(row);
            proof {
                let now = all.take(i + 1);
                assert(now =~= all.take(i as int).push(all[i as int]));
                assert(views_of(row@) =~= seq![l@, r@, c@]);
                assert(row_views(rows@) =~= row_views(rows_before).push(views_of(row@)));
                assert(group_rows(now, left, right) =~= group_rows(
                    all.take(i as int),
                    left_before,
                    right_before,
                ).push(seq![l@, r@, c@]));
                assert forall|j: int| 0 <= j < now.len() implies shows_phrase(
                    #[trigger] left[j],
                    now[j].left_word.word_nodes,
                ) by {
                    if j < i {
                        assert(left[j] == left_before[j]);
                        assert(now[j] == all.take(i as int)[j]);
                    }
                }
                assert forall|j: int| 0 <= j < now.len() implies shows_phrase(
                    #[trigger] right[j],
                    now[j].right_word.word_nodes,
                ) by {
                    if j < i {
                        assert(right[j] == right_before[j]);
                        assert(now[j] == all.take(i as int)[j]);
                    }
                }
                assert(cells_well_escaped(views_of(row@)));
                assert forall|j: int| 0 <= j < rows@.len() implies cells_well_escaped(
                    #[trigger] row_views(rows@)[j],
                ) by {
                    if j < rows_before.len() {
                        assert(row_views(rows@)[j] == row_views(rows_before)[j]);
                    }
                }
            }
            i += 1;
        }
        assert(all.take(entries.len() as int) =~= all);
        let header = group_header(self.word_count(), self.word_class_group());
        let text = layout_group(header.as_str(), &rows);
        assert(text@ == class_group_text(self@, left, right));
        text
    }
}

impl DictEntryWordCountGroup {
    /// Whether the group can be shown: it can where none of its phrases
    /// holds an escape character.
    pub fn is_printable(&self) -> (r: bool)
        ensures
            r == self@.printable(),
    {
        let groups = self.word_class_groups();
        let ghost all = class_group_views(groups@);
        let mut i: usize = 0;
        while i < groups.len()
            invariant
                i <= groups.len(),
                all == class_group_views(groups@),
                all == self@.word_class_groups,
                forall|j: int| 0 <= j < i ==> (#[trigger] all[j]).printable(),
            decreases groups.len() - i,
        {
            assert(all[i as int] == groups@[i as int]@);
            if !groups[i].is_printable() {
                return false;
            }
            i += 1;
        }
        true
    }

    /// The group as text: its groups by word class group, one under the
    /// other, with an empty line between each two neighbours. The group must
    /// be one that can be shown.
    pub fn to_string(&self) -> (r: String)
        requires
            self@.printable(),
        ensures
            shows_count_group(r@, self@),
            well_escaped(r@),
    {
        let groups = self.word_class_groups();
        let ghost all = class_group_views(groups@);
        let mut parts: Vec<String> = Vec::new();
        let mut i: usize = 0;
        while i < groups.len()
            invariant
                i <= groups.len(),
                all == class_group_views(groups@),
                all == self@.word_class_groups,
                self@.printable(),
                show_class_groups(views_of(parts@), all.take(i as int)),
                cells_well_escaped(views_of(parts@)),
            decreases groups.len() - i,
        {
            let ghost before = parts@;
            proof {
                assert(all[i as int] == groups@[i as int]@);
                assert(all[i as int].printable());
            }
            let part = groups[i].to_string();
            parts.push(part);
            proof {
                let now = all.take(i + 1);
                assert(views_of(parts@) =~= views_of(before).push(part@));
                assert forall|j: int| 0 <= j < now.len() implies shows_class_group(
                    #[trigger] views_of(parts@)[j],
                    now[j],
                ) by {
                    if j < i {
                        assert(views_of(parts@)[j] == views_of(before)[j]);
                        assert(now[j] == all.take(i as int)[j]);
                    }
                }
                assert forall|j: int| 0 <= j < parts@.len() implies well_escaped(
                    #[trigger] views_of(parts@)[j],
                ) by {
                    if j < i {
                        assert(views_of(parts@)[j] == views_of(before)[j]);
                    }
                }
            }
            i += 1;
        }
        assert(all.take(groups.len() as int) =~= all);
        layout_stack(&parts)
    }
}

impl DictQueryResultGrouped {
    /// Whether the groups can be shown: they can where none of their
    /// phrases holds an escape character.
    pub fn is_printable(&self) -> (r: bool)
        ensures
            r == self@.printable(),
    {
        let groups = self.word_count_groups();
        let ghost all = count_group_views(groups@);
        let mut i: usize = 0;
        while i < groups.len()
            invariant
                i <= groups.len(),
                all == count_group_views(groups@),
                all == self@.word_count_groups,
                forall|j: int| 0 <= j < i ==> (#[trigger] all[j]).printable(),
            decreases groups.len() - i,
        {
            assert(all[i as int] == groups@[i as int]@);
            if !groups[i].is_printable() {
                return false;
            }
            i += 1;
        }
        true
    }

    /// The groups as text: the groups by word count, one under the other,
    /// with an empty line between each two neighbours. The groups must be
    /// such that can be shown.
    pub fn to_string(&self) -> (r: String)
        requires
            self@.printable(),
        ensures
            shows_grouped(r@, self@),
            well_escaped(r@),
    {
        let groups = self.word_count_groups();
        let ghost all = count_group_views(groups@);
        let mut parts: Vec<String> = Vec::new();
        let mut i: usize = 0;
        while i < groups.len()
            invariant
                i <= groups.len(),
                all == count_group_views(groups@),
                all == self@.word_count_groups,
                self@.printable(),
                show_count_groups(views_of(parts@), all.take(i as int)),
                cells_well_escaped(views_of(parts@)),
            decreases groups.len() - i,
        {
            let ghost before = parts@;
            proof {
                assert(all[i as int] == groups@[i as int]@);
                assert(all[i as int].printable());
            }
            let part = groups[i].to_string();
            parts.push(part);
            proof {
                let now = all.take(i + 1);
                assert(views_of(parts@) =~= views_of(before).push(part@));
                assert forall|j: int| 0 <= j < now.len() implies shows_count_group(
                    #[trigger] views_of(parts@)[j],
                    now[j],
                ) by {
                    if j < i {
                        assert(views_of(parts@)[j] == views_of(before)[j]);
                        assert(now[j] == all.take(i as int)[j]);
                    }
                }
                assert forall|j: int| 0 <= j < parts@.len() implies well_escaped(
                    #[trigger] views_of(parts@)[j],
                ) by {
                    if j < i {
                        assert(views_of(parts@)[j] == views_of(before)[j]);
                    }
                }
            }
            i += 1;
        }
        assert(all.take(groups.len() as int) =~= all);
        layout_stack(&parts)
    }

    /// The groups as text; see `to_string`. The groups must be such that
    /// can be shown.
    pub fn render(&self) -> (r: String)
        requires
            self@.printable(),
        ensures
            shows_grouped(r@, self@),
            well_escaped(r@),
    {
        self.to_string()
    }

    /// The groups as text, where they can be shown: they can where none of
    /// their phrases holds an escape character.
    pub fn try_render(&self) -> (r: Option<String>)
        ensures
            r is Some <==> self@.printable(),
            r matches Some(text) ==> shows_grouped(text@, self@) && well_escaped(text@),
    {
        if self.is_printable() {
            Some(self.to_string())
        } else {
            None
        }
    }
}

} // verus!
