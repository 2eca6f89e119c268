//! The hits of a query in groups, as they are shown to a reader.
//!
//! The hits are grouped in two layers: by word count, in ascending order,
//! and within one word count by a coarse word class, verbs before nouns
//! before all others. Within one such group the hits are sorted by their
//! search key; hits with the same search key keep the order of the query
//! result.

use vstd::prelude::*;
use crate::dict::entry::{entry_views, DictEntry, DictEntryView};
use crate::dict::query::{DictQueryResult, QueryDirection};
use crate::dict::word_class::WordClass;
use crate::text::{
    chars_le, chars_of, lemma_lex_le_reflexive, lemma_lex_le_total, lemma_lex_le_transitive,
    lex_le,
};

verus! {

/// A coarse grouping of word classes.
#[derive(Clone, Copy, Debug, PartialEq, Eq, PartialOrd, Ord, Structural)]
pub enum WordClassesGroup {
    Verbs,
    Nouns,
    Others,
}

/// The group of an entry with the word classes `classes`: verbs where a verb
/// is among them, else nouns where a noun is, else others.
pub open spec fn group_of(classes: Seq<WordClass>) -> WordClassesGroup {
    if classes.contains(WordClass::Verb) {
        WordClassesGroup::Verbs
    } else if classes.contains(WordClass::Noun) {
        WordClassesGroup::Nouns
    } else {
        WordClassesGroup::Others
    }
}

impl WordClassesGroup {
    /// The place of the group in the order of groups.
    pub open spec fn rank(self) -> int {
        match self {
            WordClassesGroup::Verbs => 0,
            WordClassesGroup::Nouns => 1,
            WordClassesGroup::Others => 2,
        }
    }

    /// The name of the group.
    pub open spec fn name(self) -> Seq<char> {
        match self {
            WordClassesGroup::Verbs => "Verbs"@,
            WordClassesGroup::Nouns => "Nouns"@,
            WordClassesGroup::Others => "Others"@,
        }
    }

    /// The name of the group.
    pub fn to_string(&self) -> (r: String)
        ensures
            r@ == self.name(),
    {
        match self {
            WordClassesGroup::Verbs => "Verbs".to_owned(),
            WordClassesGroup::Nouns => "Nouns".to_owned(),
            WordClassesGroup::Others => "Others".to_owned(),
        }
    }

    /// The group of an entry with the word classes `word_classes`.
    pub fn from(word_classes: &[WordClass]) -> (r: WordClassesGroup)
        ensures
            r == group_of(word_classes@),
    {
        let mut verb = false;
        let mut noun = false;
        let mut i: usize = 0;
        while i < word_classes.len()
            invariant
                i <= word_classes.len(),
                verb == word_classes@.take(i as int).contains(WordClass::Verb),
                noun == word_classes@.take(i as int).contains(WordClass::Noun),
            decreases word_classes.len() - i,
        {
            proof {
                let before = word_classes@.take(i as int);
                let now = word_classes@.take(i + 1);
                assert(now =~= before.push(word_classes@[i as int]));
                assert(forall|j: int| 0 <= j < before.len() ==> before[j] == now[j]);
                assert(now[i as int] == word_classes@[i as int]);
            }
            match word_classes[i] {
                WordClass::Verb => {
                    verb = true;
                },
                WordClass::Noun => {
                    noun = true;
                },
                _ => {},
            }
            i += 1;
        }
        assert(word_classes@.take(word_classes.len() as int) =~= word_classes@);
        if verb {
            WordClassesGroup::Verbs
        } else if noun {
            WordClassesGroup::Nouns
        } else {
            WordClassesGroup::Others
        }
    }

    /// The group at place `rank`.
    fn at(rank: usize) -> (r: WordClassesGroup)
        requires
            rank < 3,
        ensures
            r.rank() == rank,
    {
        if rank == 0 {
            WordClassesGroup::Verbs
        } else if rank == 1 {
            WordClassesGroup::Nouns
        } else {
            WordClassesGroup::Others
        }
    }
}

/// The word count by which an entry is grouped: that of its left word for a
/// query to the right, that of its right word for a query to the left, and
/// the larger of the two for a query in both directions.
pub open spec fn count_of(direction: QueryDirection, entry: DictEntryView) -> nat {
    match direction {
        QueryDirection::ToRight => entry.left_word.word_count,
        QueryDirection::ToLeft => entry.right_word.word_count,
        QueryDirection::Bidirectional => entry.max_word_count(),
    }
}

/// The key by which an entry is sorted within its group: the search key of
/// its right word for a query to the left, and that of its left word else.
pub open spec fn sort_key(direction: QueryDirection, entry: DictEntryView) -> Seq<char> {
    match direction {
        QueryDirection::ToLeft => entry.right_word.indexed_word,
        _ => entry.left_word.indexed_word,
    }
}

/// Whether an entry belongs to the group with the word count `count` and the
/// word class group `group`.
pub open spec fn in_group(
    direction: QueryDirection,
    count: nat,
    group: WordClassesGroup,
    entry: DictEntryView,
) -> bool {
    count_of(direction, entry) == count && group_of(entry.word_classes) == group
}

/// The entries among `entries` that belong to the group with the word count
/// `count` and the word class group `group`, in the order of `entries`.
pub open spec fn members(
    entries: Seq<DictEntryView>,
    direction: QueryDirection,
    count: nat,
    group: WordClassesGroup,
) -> Seq<DictEntryView> {
    entries.filter(|e: DictEntryView| in_group(direction, count, group, e))
}

/// The entries among `entries` with the sort key `key`, in the order of
/// `entries`.
pub open spec fn keyed(entries: Seq<DictEntryView>, direction: QueryDirection, key: Seq<char>)
    -> Seq<DictEntryView> {
    entries.filter(|e: DictEntryView| sort_key(direction, e) == key)
}

/// Whether each entry of `entries` comes before the ones behind it, or has
/// their sort key.
pub open spec fn sorted(entries: Seq<DictEntryView>, direction: QueryDirection) -> bool {
    forall|i: int, j: int|
        0 <= i < j < entries.len() ==> lex_le(
            sort_key(direction, #[trigger] entries[i]),
            sort_key(direction, #[trigger] entries[j]),
        )
}

/// Whether `sorted_entries` is `entries` sorted by the sort key, with the
/// entries of one sort key in the order that they have in `entries`.
pub open spec fn is_stable_sort(
    sorted_entries: Seq<DictEntryView>,
    entries: Seq<DictEntryView>,
    direction: QueryDirection,
) -> bool {
    &&& sorted_entries.len() == entries.len()
    &&& sorted(sorted_entries, direction)
    &&& forall|key: Seq<char>| #[trigger]
        keyed(sorted_entries, direction, key) == keyed(entries, direction, key)
}

/// A group of hits with one word count and one word class group.
#[derive(Clone, Debug, PartialEq, Eq)]
pub struct DictEntryWordClassGroup {
    word_count: usize,
    word_class_group: WordClassesGroup,
    entries: Vec<DictEntry>,
}

/// The mathematical value of a `DictEntryWordClassGroup`.
pub struct ClassGroupView {
    pub word_count: nat,
    pub word_class_group: WordClassesGroup,
    pub entries: Seq<DictEntryView>,
}

impl View for DictEntryWordClassGroup {
    type V = ClassGroupView;

    closed spec fn view(&self) -> ClassGroupView {
        ClassGroupView {
            word_count: self.word_count as nat,
            word_class_group: self.word_class_group,
            entries: entry_views(self.entries@),
        }
    }
}

/// The views of a sequence of word class groups.
pub open spec fn class_group_views(v: Seq<DictEntryWordClassGroup>) -> Seq<ClassGroupView> {
    v.map_values(|g: DictEntryWordClassGroup| g@)
}

impl DictEntryWordClassGroup {
    /// The hits of the group, sorted by their sort key.
    pub fn entries(&self) -> (r: &[DictEntry])
        ensures
            entry_views(r@) == self@.entries,
    {
        self.entries.as_slice()
    }

    /// The word count of the group.
    pub fn word_count(&self) -> (r: usize)
        ensures
            r == self@.word_count,
    {
        self.word_count
    }

    /// The word class group of the group.
    pub fn word_class_group(&self) -> (r: WordClassesGroup)
        ensures
            r == self@.word_class_group,
    {
        self.word_class_group
    }
}

/// A group of hits with one word count, in groups by word class group.
#[derive(Clone, Debug, PartialEq, Eq)]
pub struct DictEntryWordCountGroup {
    word_count: usize,
    word_class_groups: Vec<DictEntryWordClassGroup>,
}

/// The mathematical value of a `DictEntryWordCountGroup`.
pub struct CountGroupView {
    pub word_count: nat,
    pub word_class_groups: Seq<ClassGroupView>,
}

impl View for DictEntryWordCountGroup {
    type V = CountGroupView;

    closed spec fn view(&self) -> CountGroupView {
        CountGroupView {
            word_count: self.word_count as nat,
            word_class_groups: class_group_views(self.word_class_groups@),
        }
    }
}

/// The views of a sequence of word count groups.
pub open spec fn count_group_views(v: Seq<DictEntryWordCountGroup>) -> Seq<CountGroupView> {
    v.map_values(|g: DictEntryWordCountGroup| g@)
}

impl DictEntryWordCountGroup {
    /// The groups by word class group: verbs, then nouns, then others, as
    /// far as there are any.
    pub fn word_class_groups(&self) -> (r: &[DictEntryWordClassGroup])
        ensures
            class_group_views(r@) == self@.word_class_groups,
    {
        self.word_class_groups.as_slice()
    }

    /// The word count of the group.
    pub fn word_count(&self) -> (r: usize)
        ensures
            r == self@.word_count,
    {
        self.word_count
    }
}

/// The hits of a query in groups.
#[derive(Clone, Debug, PartialEq, Eq)]
pub struct DictQueryResultGrouped {
    word_count_groups: Vec<DictEntryWordCountGroup>,
}

/// The mathematical value of a `DictQueryResultGrouped`.
pub struct GroupedView {
    pub word_count_groups: Seq<CountGroupView>,
}

impl View for DictQueryResultGrouped {
    type V = GroupedView;

    closed spec fn view(&self) -> GroupedView {
        GroupedView { word_count_groups: count_group_views(self.word_count_groups@) }
    }
}

impl DictQueryResultGrouped {
    /// The groups by word count, in ascending order.
    pub fn word_count_groups(&self) -> (r: &[DictEntryWordCountGroup])
        ensures
            count_group_views(r@) == self@.word_count_groups,
    {
        self.word_count_groups.as_slice()
    }
}

/// Whether `group` is the group of `entries` with its word count and word
/// class group: it holds the entries that belong to it, and no others, sorted
/// by their sort key, those of one sort key in the order of `entries`; and
/// there is at least one.
pub open spec fn is_class_group(
    group: ClassGroupView,
    entries: Seq<DictEntryView>,
    direction: QueryDirection,
) -> bool {
    &&& group.entries.len() > 0
    &&& is_stable_sort(
        group.entries,
        members(entries, direction, group.word_count, group.word_class_group),
        direction,
    )
}

/// Whether a group with the word class group `group` is among `groups`.
pub open spec fn has_class_group(groups: Seq<ClassGroupView>, group: WordClassesGroup) -> bool {
    exists|j: int| 0 <= j < groups.len() && (#[trigger] groups[j]).word_class_group == group
}

/// Whether `group` is the group of `entries` with its word count: its
/// groups by word class group are those that have an entry, in the order
/// verbs, nouns, others, each with the word count of `group`; and there is at
/// least one.
pub open spec fn is_count_group(
    group: CountGroupView,
    entries: Seq<DictEntryView>,
    direction: QueryDirection,
) -> bool {
    &&& group.word_class_groups.len() > 0
    &&& forall|i: int, j: int|
        0 <= i < j < group.word_class_groups.len() ==> (
        #[trigger] group.word_class_groups[i]).word_class_group.rank() < (
        #[trigger] group.word_class_groups[j]).word_class_group.rank()
    &&& forall|i: int|
        0 <= i < group.word_class_groups.len() ==> {
            &&& (#[trigger] group.word_class_groups[i]).word_count == group.word_count
            &&& is_class_group(group.word_class_groups[i], entries, direction)
        }
}

/// Whether the group for the word count `count` and the word class group
/// `group` is in `grouped`.
pub open spec fn has_group(grouped: GroupedView, count: nat, group: WordClassesGroup) -> bool {
    exists|i: int|
        0 <= i < grouped.word_count_groups.len() && (
        #[trigger] grouped.word_count_groups[i]).word_count == count && has_class_group(
            grouped.word_count_groups[i].word_class_groups,
            group,
        )
}

/// Whether `grouped` is `entries` in groups: the groups by word count are in
/// ascending order of their word counts, each is the group of `entries` with
/// its word count, and every entry has its group.
pub open spec fn is_grouping(
    grouped: GroupedView,
    entries: Seq<DictEntryView>,
    direction: QueryDirection,
) -> bool {
    &&& forall|i: int, j: int|
        0 <= i < j < grouped.word_count_groups.len() ==> (
        #[trigger] grouped.word_count_groups[i]).word_count < (
        #[trigger] grouped.word_count_groups[j]).word_count
    &&& forall|i: int|
        0 <= i < grouped.word_count_groups.len() ==> is_count_group(
            #[trigger] grouped.word_count_groups[i],
            entries,
            direction,
        )
    &&& forall|n: int|
        0 <= n < entries.len() ==> has_group(
            grouped,
            count_of(direction, #[trigger] entries[n]),
            group_of(entries[n].word_classes),
        )
}

/// The word count by which `entry` is grouped.
fn grouping_count(direction: QueryDirection, entry: &DictEntry) -> (r: usize)
    ensures
        r == count_of(direction, entry@),
{
    match direction {
        QueryDirection::ToRight => entry.left_word.word_count,
        QueryDirection::ToLeft => entry.right_word.word_count,
        QueryDirection::Bidirectional => entry.get_max_word_count(),
    }
}

/// The key by which `entry` is sorted.
fn sorting_key(direction: QueryDirection, entry: &DictEntry) -> (r: Vec<char>)
    ensures
        r@ == sort_key(direction, entry@),
{
    match direction {
        QueryDirection::ToLeft => chars_of(entry.right_word.indexed_word.as_str()),
        _ => chars_of(entry.left_word.indexed_word.as_str()),
    }
}

/// Putting an entry into a sorted sequence, behind the entries that do not
/// come behind it and before those that do, keeps the sequence sorted, and
/// adds the entry at the end of those with its sort key.
proof fn lemma_insert_sorted(
    out: Seq<DictEntryView>,
    input: Seq<DictEntryView>,
    entry: DictEntryView,
    p: int,
    direction: QueryDirection,
)
    requires
        is_stable_sort(out, input, direction),
        0 <= p <= out.len(),
        p > 0 ==> lex_le(sort_key(direction, out[p - 1]), sort_key(direction, entry)),
        forall|j: int|
            p <= j < out.len() ==> !lex_le(
                sort_key(direction, #[trigger] out[j]),
                sort_key(direction, entry),
            ),
    ensures
        is_stable_sort(out.insert(p, entry), input.push(entry), direction),
{
    let new = out.insert(p, entry);
    let k = sort_key(direction, entry);
    assert(new.len() == out.len() + 1);
    assert forall|i: int, j: int| 0 <= i < j < new.len() implies lex_le(
        sort_key(direction, #[trigger] new[i]),
        sort_key(direction, #[trigger] new[j]),
    ) by {
        if j < p {
            assert(new[i] == out[i] && new[j] == out[j]);
        } else if j == p {
            assert(new[i] == out[i]);
            assert(new[j] == entry);
            if i < p - 1 {
                lemma_lex_le_transitive(
                    sort_key(direction, out[i]),
                    sort_key(direction, out[p - 1]),
                    k,
                );
            }
        } else {
            assert(new[j] == out[j - 1]);
            if i < p {
                assert(new[i] == out[i]);
            } else if i == p {
                assert(new[i] == entry);
                lemma_lex_le_total(sort_key(direction, out[j - 1]), k);
            } else {
                assert(new[i] == out[i - 1]);
            }
        }
    }
    let front = out.subrange(0, p);
    let back = out.subrange(p, out.len() as int);
    assert(out =~= front + back);
    assert(new =~= front + seq![entry] + back);
    assert forall|key: Seq<char>| #[trigger]
        keyed(new, direction, key) == keyed(input.push(entry), direction, key) by {
        let f = |e: DictEntryView| sort_key(direction, e) == key;
        Seq::filter_distributes_over_add(front, back, f);
        Seq::filter_distributes_over_add(front, seq![entry], f);
        Seq::filter_distributes_over_add(front + seq![entry], back, f);
        input.lemma_filter_push(entry, f);
        Seq::<DictEntryView>::empty().lemma_filter_push(entry, f);
        assert(seq![entry] =~= Seq::<DictEntryView>::empty().push(entry));
        assert(Seq::<DictEntryView>::empty().filter(f) =~= Seq::<DictEntryView>::empty());
        assert(keyed(out, direction, key) == keyed(input, direction, key));
        if key == k {
            assert forall|j: int| 0 <= j < back.len() implies !f(#[trigger] back[j]) by {
                assert(back[j] == out[p + j]);
                lemma_lex_le_reflexive(k);
            }
            lemma_none_kept(back, f);
            assert(keyed(new, direction, key) =~= keyed(out, direction, key).push(entry));
        } else {
            assert(keyed(new, direction, key) =~= keyed(out, direction, key));
        }
    }
}

/// Filtering a sequence of which no element meets the condition leaves
/// nothing.
proof fn lemma_none_kept<A>(s: Seq<A>, pred: spec_fn(A) -> bool)
    requires
        forall|j: int| 0 <= j < s.len() ==> !pred(#[trigger] s[j]),
    ensures
        s.filter(pred) == Seq::<A>::empty(),
    decreases s.len(),
{
    reveal(Seq::filter);
    if s.len() > 0 {
        lemma_none_kept(s.drop_last(), pred);
    }
}

/// Copies of the entries that belong to the group with the word count
/// `count` and the word class group `group`, sorted by their sort key, those
/// of one sort key in the order of `entries`.
fn sorted_members(
    entries: &[DictEntry],
    direction: QueryDirection,
    count: usize,
    group: WordClassesGroup,
) -> (r: Vec<DictEntry>)
    ensures
        is_stable_sort(
            entry_views(r@),
            members(entry_views(entries@), direction, count as nat, group),
            direction,
        ),
{
    let ghost all = entry_views(entries@);
    let ghost belongs = |e: DictEntryView| in_group(direction, count as nat, group, e);
    let mut out: Vec<DictEntry> = Vec::new();
    let mut keys: Vec<Vec<char>> = Vec::new();
    let mut i: usize = 0;
    assert(all.take(0).filter(belongs) =~= Seq::<DictEntryView>::empty()) by {
        reveal(Seq::filter);
    }
    assert forall|key: Seq<char>| #[trigger]
        keyed(entry_views(out@), direction, key) == keyed(
            all.take(0).filter(belongs),
            direction,
            key,
        ) by {
        assert(entry_views(out@) =~= Seq::<DictEntryView>::empty());
    }
    while i < entries.len()
        invariant
            i <= entries.len(),
            all == entry_views(entries@),
            belongs == |e: DictEntryView| in_group(direction, count as nat, group, e),
            keys.len() == out.len(),
            forall|j: int|
                0 <= j < out.len() ==> (#[trigger] keys@[j])@ == sort_key(
                    direction,
                    entry_views(out@)[j],
                ),
            is_stable_sort(entry_views(out@), all.take(i as int).filter(belongs), direction),
        decreases entries.len() - i,
    {
        let entry = &entries[i];
        proof {
            assert(all.take(i + 1) =~= all.take(i as int).push(all[i as int]));
            all.take(i as int).lemma_filter_push(all[i as int], belongs);
            assert(all[i as int] == entry@);
        }
        if grouping_count(direction, entry) == count && same_group(
            WordClassesGroup::from(entry.word_classes.as_slice()),
            group,
        ) {
            let key = sorting_key(direction, entry);
            let mut p: usize = out.len();
            while p > 0 && !chars_le(&keys[p - 1], &key)
                invariant
                    p <= out.len(),
                    keys.len() == out.len(),
                    key@ == sort_key(direction, entry@),
                    forall|j: int|
                        0 <= j < out.len() ==> (#[trigger] keys@[j])@ == sort_key(
                            direction,
                            entry_views(out@)[j],
                        ),
                    forall|j: int|
                        p <= j < out.len() ==> !lex_le(
                            sort_key(direction, #[trigger] entry_views(out@)[j]),
                            key@,
                        ),
                decreases p,
            {
                p -= 1;
            }
            let ghost before = entry_views(out@);
            let ghost keys_before = keys@;
            let copy = entry.duplicate();
            proof {
                if p > 0 {
                    assert(keys@[p - 1]@ == sort_key(direction, before[p - 1]));
                }
                lemma_insert_sorted(
                    before,
                    all.take(i as int).filter(belongs),
                    entry@,
                    p as int,
                    direction,
                );
            }
            out.insert(p, copy);
            keys.insert(p, key);
            proof {
                assert(entry_views(out@) =~= before.insert(p as int, entry@));
                assert forall|j: int| 0 <= j < out.len() implies (#[trigger] keys@[j])@
                    == sort_key(direction, entry_views(out@)[j]) by {
                    if j < p {
                        assert(keys@[j] == keys_before[j]);
                    } else if j > p {
                        assert(keys@[j] == keys_before[j - 1]);
                        assert(entry_views(out@)[j] == before[j - 1]);
                    }
                }
            }
        }
        i += 1;
    }
    assert(all.take(entries.len() as int) =~= all);
    out
}

/// Whether two word class groups are the same.
fn same_group(a: WordClassesGroup, b: WordClassesGroup) -> (r: bool)
    ensures
        r == (a == b),
{
    match (a, b) {
        (WordClassesGroup::Verbs, WordClassesGroup::Verbs) => true,
        (WordClassesGroup::Nouns, WordClassesGroup::Nouns) => true,
        (WordClassesGroup::Others, WordClassesGroup::Others) => true,
        _ => false,
    }
}

/// A sequence of which an element meets a condition keeps an element when
/// it is filtered by the condition.
proof fn lemma_some_kept<A>(s: Seq<A>, pred: spec_fn(A) -> bool, n: int)
    requires
        0 <= n < s.len(),
        pred(s[n]),
    ensures
        s.filter(pred).len() > 0,
    decreases s.len(),
{
    reveal(Seq::filter);
    if n < s.len() - 1 {
        lemma_some_kept(s.drop_last(), pred, n);
    }
}

/// The smallest word count, not below `lower`, by which an entry of
/// `entries` is grouped.
fn next_count(entries: &[DictEntry], direction: QueryDirection, lower: usize) -> (r: Option<
    usize,
>)
    ensures
        match r {
            Some(count) => {
                &&& count >= lower
                &&& exists|n: int|
                    0 <= n < entries@.len() && count_of(
                        direction,
                        #[trigger] entry_views(entries@)[n],
                    ) == count
                &&& forall|n: int|
                    0 <= n < entries@.len() && count_of(
                        direction,
                        #[trigger] entry_views(entries@)[n],
                    ) >= lower ==> count_of(direction, entry_views(entries@)[n]) >= count
            },
            None => forall|n: int|
                0 <= n < entries@.len() ==> count_of(
                    direction,
                    #[trigger] entry_views(entries@)[n],
                ) < lower,
        },
{
    let ghost all = entry_views(entries@);
    let mut best: Option<usize> = None;
    let mut i: usize = 0;
    while i < entries.len()
        invariant
            i <= entries.len(),
            all == entry_views(entries@),
            match best {
                Some(count) => {
                    &&& count >= lower
                    &&& exists|n: int|
                        0 <= n < i && count_of(direction, #[trigger] all[n]) == count
                    &&& forall|n: int|
                        0 <= n < i && count_of(direction, #[trigger] all[n]) >= lower
                            ==> count_of(direction, all[n]) >= count
                },
                None => forall|n: int|
                    0 <= n < i ==> count_of(direction, #[trigger] all[n]) < lower,
            },
        decreases entries.len() - i,
    {
        let count = grouping_count(direction, &entries[i]);
        assert(all[i as int] == entries@[i as int]@);
        if count >= lower {
            match best {
                Some(least) => {
                    if count < least {
                        best = Some(count);
                    }
                },
                None => {
                    best = Some(count);
                },
            }
        }
        i += 1;
    }
    best
}

/// The group with the word count `count`.
fn count_group(entries: &[DictEntry], direction: QueryDirection, count: usize) -> (r:
    DictEntryWordCountGroup)
    requires
        exists|n: int|
            0 <= n < entries@.len() && count_of(direction, #[trigger] entry_views(entries@)[n])
                == count,
    ensures
        r@.word_count == count,
        is_count_group(r@, entry_views(entries@), direction),
        forall|group: WordClassesGroup|
            members(entry_views(entries@), direction, count as nat, group).len() > 0
                ==> #[trigger] has_class_group(r@.word_class_groups, group),
{
    let ghost all = entry_views(entries@);
    let mut groups: Vec<DictEntryWordClassGroup> = Vec::new();
    let mut rank: usize = 0;
    while rank < 3
        invariant
            rank <= 3,
            all == entry_views(entries@),
            forall|i: int, j: int|
                0 <= i < j < groups.len() ==> (#[trigger] class_group_views(
                    groups@,
                )[i]).word_class_group.rank() < (#[trigger] class_group_views(
                    groups@,
                )[j]).word_class_group.rank(),
            forall|i: int|
                0 <= i < groups.len() ==> {
                    &&& (#[trigger] class_group_views(groups@)[i]).word_class_group.rank() < rank
                    &&& class_group_views(groups@)[i].word_count == count
                    &&& is_class_group(class_group_views(groups@)[i], all, direction)
                },
            forall|group: WordClassesGroup|
                group.rank() < rank && members(all, direction, count as nat, group).len() > 0
                    ==> #[trigger] has_class_group(class_group_views(groups@), group),
        decreases 3 - rank,
    {
        let group = WordClassesGroup::at(rank);
        let found = sorted_members(entries, direction, count, group);
        let ghost before = class_group_views(groups@);
        if found.len() > 0 {
            let class_group = DictEntryWordClassGroup {
                word_count: count,
                word_class_group: group,
                entries: found,
            };
            let ghost view = class_group@;
            groups.push(class_group);
            proof {
                let now = class_group_views(groups@);
                assert(now =~= before.push(view));
                assert(now[before.len() as int] == view);
                assert forall|g: WordClassesGroup|
                    g.rank() < rank + 1 && members(all, direction, count as nat, g).len() > 0
                    implies #[trigger] has_class_group(now, g) by {
                    if g.rank() < rank {
                        assert(has_class_group(before, g));
                        let j = choose|j: int|
                            0 <= j < before.len() && (#[trigger] before[j]).word_class_group == g;
                        assert(now[j] == before[j]);
                    } else {
                        assert(g == group);
                        assert(now[before.len() as int].word_class_group == g);
                    }
                }
                assert forall|i: int, j: int| 0 <= i < j < now.len() implies (
                #[trigger] now[i]).word_class_group.rank() < (
                #[trigger] now[j]).word_class_group.rank() by {
                    assert(now[i] == before[i]);
                    if j < before.len() {
                        assert(now[j] == before[j]);
                    }
                }
                assert forall|i: int| 0 <= i < now.len() implies {
                    &&& (#[trigger] now[i]).word_class_group.rank() < rank + 1
                    &&& now[i].word_count == count
                    &&& is_class_group(now[i], all, direction)
                } by {
                    if i < before.len() {
                        assert(now[i] == before[i]);
                    }
                }
            }
        } else {
            proof {
                assert forall|g: WordClassesGroup|
                    g.rank() < rank + 1 && members(all, direction, count as nat, g).len() > 0
                    implies #[trigger] has_class_group(before, g) by {
                    if g.rank() >= rank {
                        assert(g == group);
                    }
                }
            }
        }
        rank += 1;
    }
    proof {
        let n = choose|n: int|
            0 <= n < entries@.len() && count_of(direction, #[trigger] entry_views(entries@)[n])
                == count;
        let group = group_of(all[n].word_classes);
        let belongs = |e: DictEntryView| in_group(direction, count as nat, group, e);
        lemma_some_kept(all, belongs, n);
        assert(has_class_group(class_group_views(groups@), group));
    }
    DictEntryWordCountGroup { word_count: count, word_class_groups: groups }
}

impl DictQueryResultGrouped {
    /// The hits of `query_result` in groups.
    ///
    /// The groups by word count are in ascending order of their word counts.
    /// Within each, the groups by word class group stand in the order verbs,
    /// nouns, others. Every hit is in the group of its word count and word
    /// class group, and no group is empty. Within a group the hits are
    /// sorted by their sort key, and hits with the same sort key keep the
    /// order that they have in `query_result`.
    pub fn from(query_result: DictQueryResult) -> (r: DictQueryResultGrouped)
        ensures
            is_grouping(r@, query_result@.entries, query_result@.query_direction),
    {
        let direction = query_result.query_direction;
        let entries = query_result.entries.as_slice();
        let ghost all = entry_views(entries@);
        let mut groups: Vec<DictEntryWordCountGroup> = Vec::new();
        let mut lower: usize = 0;
        let mut more = true;
        while more
            invariant
                all == entry_views(entries@),
                forall|i: int, j: int|
                    0 <= i < j < groups.len() ==> (#[trigger] count_group_views(
                        groups@,
                    )[i]).word_count < (#[trigger] count_group_views(groups@)[j]).word_count,
                forall|i: int|
                    0 <= i < groups.len() ==> is_count_group(
                        #[trigger] count_group_views(groups@)[i],
                        all,
                        direction,
                    ),
                more ==> forall|i: int|
                    0 <= i < groups.len() ==> (#[trigger] count_group_views(
                        groups@,
                    )[i]).word_count < lower,
                forall|n: int|
                    0 <= n < all.len() && (!more || count_of(direction, #[trigger] all[n]) < lower)
                        ==> has_group(
                        GroupedView { word_count_groups: count_group_views(groups@) },
                        count_of(direction, all[n]),
                        group_of(all[n].word_classes),
                    ),
            decreases (usize::MAX - lower) + (if more { 1int } else { 0int }),
        {
            let ghost before = count_group_views(groups@);
            match next_count(entries, direction, lower) {
                None => {
                    more = false;
                },
                Some(count) => {
                    let group = count_group(entries, direction, count);
                    let ghost view = group@;
                    groups.push(group);
                    proof {
                        let now = count_group_views(groups@);
                        assert(now =~= before.push(view));
                        assert(now[before.len() as int] == view);
                        assert forall|i: int, j: int| 0 <= i < j < now.len() implies (
                        #[trigger] now[i]).word_count < (#[trigger] now[j]).word_count by {
                            assert(now[i] == before[i]);
                            if j < before.len() {
                                assert(now[j] == before[j]);
                            }
                        }
                        assert forall|i: int| 0 <= i < now.len() implies is_count_group(
                            #[trigger] now[i],
                            all,
                            direction,
                        ) by {
                            if i < before.len() {
                                assert(now[i] == before[i]);
                            }
                        }
                        assert forall|i: int| 0 <= i < now.len() implies (
                        #[trigger] now[i]).word_count <= count by {
                            if i < before.len() {
                                assert(now[i] == before[i]);
                            }
                        }
                        assert forall|n: int|
                            0 <= n < all.len() && count_of(direction, #[trigger] all[n])
                                <= count implies has_group(
                            GroupedView { word_count_groups: now },
                            count_of(direction, all[n]),
                            group_of(all[n].word_classes),
                        ) by {
                            let c = count_of(direction, all[n]);
                            let g = group_of(all[n].word_classes);
                            let grouped = GroupedView { word_count_groups: now };
                            if c < lower {
                                let old = GroupedView { word_count_groups: before };
                                assert(has_group(old, c, g));
                                let i = choose|i: int|
                                    0 <= i < before.len() && (#[trigger] before[i]).word_count
                                        == c && has_class_group(before[i].word_class_groups, g);
                                assert(now[i] == before[i]);
                                assert(grouped.word_count_groups[i].word_count == c
                                    && has_class_group(
                                    grouped.word_count_groups[i].word_class_groups,
                                    g,
                                ));
                            } else {
                                assert(c == count);
                                let belongs = |e: DictEntryView|
                                    in_group(direction, count as nat, g, e);
                                lemma_some_kept(all, belongs, n);
                                assert(has_class_group(view.word_class_groups, g));
                                let last = before.len() as int;
                                assert(grouped.word_count_groups[last].word_count == c
                                    && has_class_group(
                                    grouped.word_count_groups[last].word_class_groups,
                                    g,
                                ));
                            }
                        }
                    }
                    if count == usize::MAX {
                        more = false;
                    } else {
                        lower = count + 1;
                    }
                },
            }
        }
        DictQueryResultGrouped { word_count_groups: groups }
    }
}

impl DictQueryResult {
    /// The hits in groups; see `DictQueryResultGrouped::from`.
    pub fn into_grouped(self) -> (r: DictQueryResultGrouped)
        ensures
            is_grouping(r@, self@.entries, self@.query_direction),
    {
        DictQueryResultGrouped::from(self)
    }
}

} // verus!
