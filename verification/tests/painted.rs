use dictcc::parse::word_ast::{WordNode, WordNodes};
use dictcc::DictWord;

#[test]
fn brackets_are_painted_by_their_kind() {
    colored::control::set_override(true);
    assert_eq!("foo", WordNode::Word("foo".to_string()).to_colored_string());
    assert_eq!(
        "\u{1b}[91m<a, b>\u{1b}[0m",
        WordNode::Angle(vec!["a".to_string(), "b".to_string()]).to_colored_string()
    );
    assert_eq!("\u{1b}[92m(a)\u{1b}[0m", WordNode::Round("a".to_string()).to_colored_string());
    assert_eq!("\u{1b}[94m[a]\u{1b}[0m", WordNode::Square("a".to_string()).to_colored_string());
    assert_eq!("\u{1b}[96m{a}\u{1b}[0m", WordNode::Curly("a".to_string()).to_colored_string());
    let nodes = WordNodes::try_from("(a) Foo {n} [note] <F, FO>").unwrap();
    let painted = "\u{1b}[92m(a)\u{1b}[0m Foo \u{1b}[96m{n}\u{1b}[0m \u{1b}[94m[note]\u{1b}[0m \u{1b}[91m<F, FO>\u{1b}[0m";
    assert_eq!(painted, nodes.to_colored_string());
    assert_eq!(painted, DictWord::from(nodes).to_colored_string());
    colored::control::set_override(false);
    assert_eq!("(a)", WordNode::Round("a".to_string()).to_colored_string());
}
