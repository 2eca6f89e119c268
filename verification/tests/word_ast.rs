use dictcc::parse::word_ast::{
    angle_br, csv, curly_br, entry, round_br, square_br, word, WordNode, WordNodes,
};

fn strings(items: &[&str]) -> Vec<String> {
    items.iter().map(|s| s.to_string()).collect()
}

#[test]
fn test_entry_parser() {
    let input = "(optional) word {f} [comment] <foo, bar, baz>";
    let expected = vec![
        WordNode::Round("optional".to_string()),
        WordNode::Word("word".to_string()),
        WordNode::Curly("f".to_string()),
        WordNode::Square("comment".to_string()),
        WordNode::Angle(strings(&["foo", "bar", "baz"])),
    ];

    assert_eq!(Some((String::new(), expected)), entry(input));
}

#[test]
fn test_word_node_display() {
    assert_eq!("foo", WordNode::Word("foo".to_string()).to_string());
    assert_eq!("<>", WordNode::Angle(vec![]).to_string());
    assert_eq!("<foo>", WordNode::Angle(strings(&["foo"])).to_string());
    assert_eq!("<foo, bar>", WordNode::Angle(strings(&["foo", "bar"])).to_string());
    assert_eq!("(foo)", WordNode::Round("foo".to_string()).to_string());
    assert_eq!("[foo]", WordNode::Square("foo".to_string()).to_string());
    assert_eq!("{foo}", WordNode::Curly("foo".to_string()).to_string());
}

#[test]
fn test_csv() {
    let data = vec![
        ("a", vec!["a"]),
        ("a, b", vec!["a", "b"]),
        ("foo", vec!["foo"]),
        ("foo, bar", vec!["foo", "bar"]),
        ("foo, bar, baz", vec!["foo", "bar", "baz"]),
        ("a, bar", vec!["a", "bar"]),
        ("foo, b", vec!["foo", "b"]),
        ("f,oo, ba,r, baz,", vec!["f,oo", "ba,r", "baz,"]),
    ];

    for (input, expected) in data {
        assert_eq!(Some((String::new(), strings(&expected))), csv(input));
    }
}

#[test]
fn test_angle_br() {
    let data = vec![
        ("<a>", vec!["a"]),
        ("<a, b>", vec!["a", "b"]),
        ("<foo>", vec!["foo"]),
        ("<foo, bar>", vec!["foo", "bar"]),
        ("<foo, bar, baz>", vec!["foo", "bar", "baz"]),
        ("<a, bar>", vec!["a", "bar"]),
        ("<foo, b>", vec!["foo", "b"]),
        ("<f,oo, ba,r, baz,>", vec!["f,oo", "ba,r", "baz,"]),
    ];

    for (input, expected) in data {
        assert_eq!(Some((String::new(), strings(&expected))), angle_br(input));
    }
}

#[test]
fn test_round_br() {
    assert_eq!(Some((String::new(), "foo".to_string())), round_br("(foo)"));
}

#[test]
fn test_square_br() {
    assert_eq!(Some((String::new(), "foo".to_string())), square_br("[foo]"));
}

#[test]
fn test_curly_br() {
    assert_eq!(Some((String::new(), "foo".to_string())), curly_br("{foo}"));
}

#[test]
fn word_stops_at_an_opening_bracket_or_a_space() {
    assert_eq!(Some(("(b)".to_string(), "a".to_string())), word("a(b)"));
    assert_eq!(Some((" b".to_string(), "a)".to_string())), word("a) b"));
    assert_eq!(None, word(" a"));
    assert_eq!(None, word(""));
    assert_eq!(None, word("<a>"));
}

#[test]
fn brackets_need_a_body_and_their_closing_character() {
    assert_eq!(None, round_br("()"));
    assert_eq!(None, round_br("(a"));
    assert_eq!(None, round_br("(a(b))"));
    assert_eq!(None, square_br("[a"));
    assert_eq!(None, curly_br("{}"));
    assert_eq!(None, angle_br("<a"));
    assert_eq!(Some((" x".to_string(), "a b".to_string())), round_br("(a b) x"));
}

#[test]
fn list_items_may_be_empty() {
    assert_eq!(Some((String::new(), strings(&["a", "", "b"]))), csv("a, , b"));
    assert_eq!(Some((String::new(), strings(&["", "a"]))), csv(", a"));
    assert_eq!(Some((String::new(), strings(&[""]))), csv(""));
}

#[test]
fn phrase_with_all_kinds_of_fragments() {
    let nodes = WordNodes::try_from("(a) Foo {n} [note] <F, FO>").unwrap();
    let expected = vec![
        WordNode::Round("a".to_string()),
        WordNode::Word("Foo".to_string()),
        WordNode::Curly("n".to_string()),
        WordNode::Square("note".to_string()),
        WordNode::Angle(strings(&["F", "FO"])),
    ];
    assert_eq!(WordNodes::from(expected), nodes);
    assert_eq!("a foo", nodes.build_indexed_word());
    assert_eq!(2, nodes.count_words());
    assert_eq!(strings(&["F", "FO"]), nodes.build_acronyms());
    assert_eq!(strings(&["note"]), nodes.build_comments());
    assert_eq!(strings(&["n"]), nodes.build_genders());
    assert_eq!("Foo", nodes.build_plain_word());
    assert_eq!("(a) Foo", nodes.build_word_with_optional_parts());
    assert_eq!("(a) Foo {n} [note] <F, FO>", nodes.to_string());
}

#[test]
fn phrase_that_does_not_parse_falls_back_to_one_word() {
    let nodes = WordNodes::with_fallback_from("broken (unclosed");
    assert_eq!(
        WordNodes::from(vec![WordNode::Word("broken (unclosed".to_string())]),
        nodes
    );
    assert_eq!(1, nodes.count_words());
    assert_eq!("broken (unclosed", nodes.build_indexed_word());
}

#[test]
fn spaces_around_fragments_do_not_count() {
    let nodes = WordNodes::try_from("  foo   (bar)  ").unwrap();
    assert_eq!("foo (bar)", nodes.to_string());
    assert_eq!(
        WordNodes::try_from("foo (bar)").unwrap(),
        nodes
    );
}
