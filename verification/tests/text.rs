use dictcc::text::{
    chars_le, chars_of, cut_chars, decimal_string, join_strings, same_text, split_tokens,
    string_from,
};

fn chars(s: &str) -> Vec<char> {
    s.chars().collect()
}

#[test]
fn characters_of_a_string() {
    assert_eq!(vec!['a', 'ä', '€'], chars_of("aä€"));
    assert_eq!(Vec::<char>::new(), chars_of(""));
    assert_eq!("äb", string_from(&chars("äb")));
}

#[test]
fn same_text_compares_all_characters() {
    assert!(same_text("", ""));
    assert!(same_text("abc", "abc"));
    assert!(!same_text("abc", "abd"));
    assert!(!same_text("abc", "ab"));
    assert!(!same_text("ab", "abc"));
}

#[test]
fn joining_strings() {
    let parts = vec!["a".to_string(), "".to_string(), "bc".to_string()];
    assert_eq!("a, , bc", join_strings(&parts, ", "));
    assert_eq!("", join_strings(&Vec::new(), ", "));
    assert_eq!("x", join_strings(&vec!["x".to_string()], ", "));
}

#[test]
fn cutting_at_a_character() {
    assert_eq!(vec![chars("a"), chars(""), chars("b")], cut_chars(&chars("a\t\tb"), '\t'));
    assert_eq!(vec![chars("")], cut_chars(&chars(""), '\t'));
    assert_eq!(vec![chars("a"), chars("")], cut_chars(&chars("a\n"), '\n'));
}

#[test]
fn tokens_between_whitespace() {
    assert_eq!(vec![chars("a"), chars("bc")], split_tokens(&chars("  a \t bc\n")));
    assert_eq!(Vec::<Vec<char>>::new(), split_tokens(&chars(" \u{a0} ")));
    assert_eq!(vec![chars("a"), chars("b")], split_tokens(&chars("a\u{2003}b")));
}

#[test]
fn order_of_strings_is_that_of_the_standard_library() {
    let words = ["", "a", "ab", "abc", "b", "B", "ä", "z", "a b", "a-b", "€", "\u{10000}"];
    for a in words {
        for b in words {
            assert_eq!(a <= b, chars_le(&chars(a), &chars(b)), "{:?} {:?}", a, b);
        }
    }
}

#[test]
fn decimal_digits() {
    assert_eq!("0", decimal_string(0));
    assert_eq!("7", decimal_string(7));
    assert_eq!("10", decimal_string(10));
    assert_eq!("1203", decimal_string(1203));
    assert_eq!(usize::MAX.to_string(), decimal_string(usize::MAX));
}

#[test]
fn whitespace_is_that_of_the_standard_library() {
    let mut c = '\u{0}';
    loop {
        let tokens = split_tokens(&vec!['a', c, 'b']);
        assert_eq!(if c.is_whitespace() { 2 } else { 1 }, tokens.len(), "{:?}", c);
        if c == char::MAX {
            break;
        }
        c = match char::from_u32(c as u32 + 1) {
            Some(next) => next,
            None => '\u{e000}',
        };
    }
    for c in "\t\n\u{b}\u{c}\r \u{85}\u{a0}\u{1680}\u{2000}\u{200a}\u{2028}\u{2029}\u{202f}\u{205f}\u{3000}".chars() {
        assert_eq!(2, split_tokens(&vec!['a', c, 'b']).len(), "{:?}", c);
    }
    for c in "\u{8}\u{e}\u{1f}!\u{84}\u{86}\u{9f}\u{a1}\u{180e}\u{1fff}\u{200b}\u{2027}\u{202a}\u{2060}\u{feff}".chars() {
        assert_eq!(1, split_tokens(&vec!['a', c, 'b']).len(), "{:?}", c);
    }
}
