use dictcc::grouped::{DictQueryResultGrouped, WordClassesGroup};
use dictcc::parse::word_ast::WordNodes;
use dictcc::query::{DictQueryResult, QueryDirection};
use dictcc::render::{group_header, is_well_escaped, layout_group, layout_stack};
use dictcc::{DictEntry, DictWord, VecDict, WordClass};

fn entry(left: &str, right: &str, classes: &str) -> DictEntry {
    DictEntry {
        left_word: DictWord::from(WordNodes::with_fallback_from(left)),
        right_word: DictWord::from(WordNodes::with_fallback_from(right)),
        word_classes: WordClass::with_fallback_from(classes),
    }
}

fn shape(grouped: &DictQueryResultGrouped) -> Vec<(usize, WordClassesGroup, Vec<String>)> {
    let mut shape = Vec::new();
    for count_group in grouped.word_count_groups() {
        for class_group in count_group.word_class_groups() {
            assert_eq!(count_group.word_count(), class_group.word_count());
            shape.push((
                class_group.word_count(),
                class_group.word_class_group(),
                class_group
                    .entries()
                    .iter()
                    .map(|e| format!("{}={}", e.left_word.to_string(), e.right_word.to_string()))
                    .collect(),
            ));
        }
    }
    shape
}

fn strings(items: &[&str]) -> Vec<String> {
    items.iter().map(|s| s.to_string()).collect()
}

#[test]
fn verbs_before_nouns_before_others() {
    colored::control::set_override(false);
    let dict = VecDict::create(
        "# DE-EN vocabulary database\ngut\tgood\tadj\nHaus\tHouse\tnoun\ngehen\tgo\tverb\n",
    )
    .unwrap();
    let result = dict.query(".*").regex().execute().unwrap();
    assert_eq!(3, result.entries().len());
    let grouped = result.into_grouped();
    assert_eq!(1, grouped.word_count_groups().len());
    assert_eq!(1, grouped.word_count_groups()[0].word_count());
    assert_eq!(
        vec![
            (1, WordClassesGroup::Verbs, strings(&["gehen=go"])),
            (1, WordClassesGroup::Nouns, strings(&["Haus=House"])),
            (1, WordClassesGroup::Others, strings(&["gut=good"])),
        ],
        shape(&grouped)
    );
    let classes = grouped.word_count_groups()[0].word_class_groups();
    assert_eq!("Verbs\n-------------------\n gehen | go | Verb \n", classes[0].to_string());
    assert_eq!("Nouns\n---------------------\n Haus | House | Noun \n", classes[1].to_string());
    assert_eq!(
        "Others\n------------------------\n gut | good | Adjective \n",
        classes[2].to_string()
    );
    let text = "Verbs\n-------------------\n gehen | go | Verb \n                        \nNouns\n---------------------\n Haus | House | Noun \n                        \nOthers\n------------------------\n gut | good | Adjective \n";
    assert_eq!(text, grouped.word_count_groups()[0].to_string());
    assert_eq!(text, grouped.to_string());
    assert_eq!(text, grouped.render());
}

#[test]
fn groups_by_word_count_in_ascending_order() {
    let entries = vec![
        entry("foo verb", "x", "verb"),
        entry("c", "a", "adj"),
        entry("one two three", "x", "noun"),
        entry("B", "B", "adj"),
        entry("verb", "Verb", "verb noun"),
        entry("a", "c", "adj"),
        entry("foo", "foo", "noun"),
    ];
    let result = DictQueryResult { entries, query_direction: QueryDirection::ToRight };
    assert_eq!(
        vec![
            (1, WordClassesGroup::Verbs, strings(&["verb=Verb"])),
            (1, WordClassesGroup::Nouns, strings(&["foo=foo"])),
            (1, WordClassesGroup::Others, strings(&["a=c", "B=B", "c=a"])),
            (2, WordClassesGroup::Verbs, strings(&["foo verb=x"])),
            (3, WordClassesGroup::Nouns, strings(&["one two three=x"])),
        ],
        shape(&result.into_grouped())
    );
}

#[test]
fn word_count_and_sort_key_follow_the_direction() {
    let entries = vec![
        entry("b", "one two", "noun"),
        entry("a b c", "z", "noun"),
        entry("a", "y x", "noun"),
    ];
    let to_right = DictQueryResult {
        entries: entries.clone(),
        query_direction: QueryDirection::ToRight,
    };
    assert_eq!(
        vec![
            (1, WordClassesGroup::Nouns, strings(&["a=y x", "b=one two"])),
            (3, WordClassesGroup::Nouns, strings(&["a b c=z"])),
        ],
        shape(&to_right.into_grouped())
    );
    let to_left = DictQueryResult {
        entries: entries.clone(),
        query_direction: QueryDirection::ToLeft,
    };
    assert_eq!(
        vec![
            (1, WordClassesGroup::Nouns, strings(&["a b c=z"])),
            (2, WordClassesGroup::Nouns, strings(&["b=one two", "a=y x"])),
        ],
        shape(&to_left.into_grouped())
    );
    let both = DictQueryResult { entries, query_direction: QueryDirection::Bidirectional };
    assert_eq!(
        vec![
            (2, WordClassesGroup::Nouns, strings(&["a=y x", "b=one two"])),
            (3, WordClassesGroup::Nouns, strings(&["a b c=z"])),
        ],
        shape(&both.into_grouped())
    );
}

#[test]
fn entries_with_the_same_sort_key_keep_their_order() {
    let entries = vec![
        entry("b", "3", "noun"),
        entry("a", "1", "noun"),
        entry("B", "4", "noun"),
        entry("A", "2", "noun"),
        entry("b", "5", "noun"),
        entry("a", "0", "noun"),
    ];
    let result = DictQueryResult { entries, query_direction: QueryDirection::Bidirectional };
    assert_eq!(
        vec![(
            1,
            WordClassesGroup::Nouns,
            strings(&["a=1", "A=2", "a=0", "b=3", "B=4", "b=5"])
        )],
        shape(&result.into_grouped())
    );
}

#[test]
fn nothing_found_gives_no_group() {
    let result = DictQueryResult { entries: Vec::new(), query_direction: QueryDirection::ToLeft };
    let grouped = DictQueryResultGrouped::from(result);
    assert_eq!(0, grouped.word_count_groups().len());
    assert_eq!("", grouped.to_string());
}

#[test]
fn entry_without_words_has_the_word_count_zero() {
    colored::control::set_override(false);
    let result = DictQueryResult {
        entries: vec![entry("[only a comment]", "{f}", "")],
        query_direction: QueryDirection::Bidirectional,
    };
    let grouped = result.into_grouped();
    assert_eq!(
        vec![(0, WordClassesGroup::Others, strings(&["[only a comment]={f}"]))],
        shape(&grouped)
    );
    assert_eq!(
        "Others\n---------------------------\n [only a comment] | {f} |  \n",
        grouped.to_string()
    );
}

#[test]
fn header_names_the_word_count_above_one() {
    assert_eq!("Verbs", group_header(0, WordClassesGroup::Verbs));
    assert_eq!("Nouns", group_header(1, WordClassesGroup::Nouns));
    assert_eq!("2 Words: Verbs", group_header(2, WordClassesGroup::Verbs));
    assert_eq!("12 Words: Others", group_header(12, WordClassesGroup::Others));
}

#[test]
fn groups_of_more_words_as_text() {
    colored::control::set_override(false);
    let result = DictQueryResult {
        entries: vec![
            entry("foo Verb", "foo verb", "verb"),
            entry("Verb", "verb", "verb"),
            entry("(a) Foo {n}", "bar", "noun adj"),
        ],
        query_direction: QueryDirection::Bidirectional,
    };
    assert_eq!(
        "Verbs\n--------------------\n Verb | verb | Verb \n                                     \n2 Words: Verbs\n----------------------------\n foo Verb | foo verb | Verb \n                                     \n2 Words: Nouns\n-------------------------------------\n (a) Foo {n} | bar | Noun, Adjective \n",
        result.into_grouped().to_string()
    );
}

#[test]
fn groups_that_can_be_shown() {
    colored::control::set_override(true);
    let result = DictQueryResult {
        entries: vec![entry("(a) Foo {n} [x] <y>", "bar", "noun")],
        query_direction: QueryDirection::Bidirectional,
    };
    let grouped = result.into_grouped();
    assert!(grouped.is_printable());
    assert!(grouped.word_count_groups()[0].is_printable());
    assert!(grouped.word_count_groups()[0].word_class_groups()[0].is_printable());
    let text = grouped.try_render().unwrap();
    assert_eq!(grouped.render(), text);
    assert!(is_well_escaped(&text));
    assert!(text.contains("\u{1b}[92m(a)\u{1b}[0m Foo \u{1b}[96m{n}\u{1b}[0m"));
    colored::control::set_override(false);
    assert_eq!(
        "2 Words: Nouns\n----------------------------------\n (a) Foo {n} [x] <y> | bar | Noun \n",
        grouped.try_render().unwrap()
    );
}

#[test]
fn phrase_with_an_escape_character_cannot_be_shown() {
    for phrase in ["\u{1b}[\u{644}\u{627}\u{644}\u{627}", "a \u{1b}[0m b", "(\u{1b})", "x\u{1b}"] {
        for painted in [true, false] {
            colored::control::set_override(painted);
            let result = DictQueryResult {
                entries: vec![entry("fine", "fine", "noun"), entry("left", phrase, "verb")],
                query_direction: QueryDirection::ToRight,
            };
            let grouped = result.into_grouped();
            assert!(!grouped.is_printable());
            assert_eq!(None, grouped.try_render());
            let groups = grouped.word_count_groups()[0].word_class_groups();
            assert!(!groups[0].is_printable());
            assert!(groups[1].is_printable());
            assert!(!groups[0].entries()[0].right_word.is_plain());
            assert!(groups[0].entries()[0].left_word.is_plain());
        }
    }
    colored::control::set_override(false);
}

#[test]
fn text_in_which_every_escape_sequence_is_closed() {
    for text in ["", "plain", "\u{1b}[m", "\u{1b}[0m", "a\u{1b}[1;92mb\u{1b}[0mc", "m[0\u{1b}[38;5;1m"] {
        assert!(is_well_escaped(text), "{:?}", text);
    }
    for text in [
        "\u{1b}",
        "a\u{1b}",
        "\u{1b}0m",
        "\u{1b}[",
        "\u{1b}[0",
        "\u{1b}[0 m",
        "\u{1b}[0\u{1b}[0m",
        "\u{1b}[\u{644}\u{627}\u{644}\u{627}",
        "\u{1b}[0m\u{1b}",
    ] {
        assert!(!is_well_escaped(text), "{:?}", text);
    }
}

#[test]
fn layout_of_cells_with_closed_escape_sequences() {
    let rows = vec![vec![
        "\u{1b}[92m(a)\u{1b}[0m \u{644}\u{627}".to_string(),
        "b".to_string(),
        "Noun".to_string(),
    ]];
    let group = layout_group("Nouns", &rows);
    assert!(is_well_escaped(&group));
    assert!(group.starts_with("Nouns\n"));
    let stack = layout_stack(&vec![group.clone(), group.clone()]);
    assert!(is_well_escaped(&stack));
    assert_eq!(2, stack.matches("\u{1b}[92m(a)\u{1b}[0m").count());
}
