use dictcc::error::DictError;
use dictcc::parse::html::{html_decode_with_fallback, HtmlDecodedDictEntry};
use dictcc::parse::raw_csv::{
    incomplete_records_filter, parse_record, read_lines, read_records, RawDictEntry,
};
use dictcc::parse::word_ast::{WordNode, WordNodes, WordNodesDictEntry};
use dictcc::{DictEntry, DictWord, Language, VecDict, WordClass};

fn chars(s: &str) -> Vec<char> {
    s.chars().collect()
}

const CONTENT: &str = "# DE-EN vocabulary database\tcompiled by dict.cc\n# a comment\n\nHaus\tHouse\tnoun\nshort\trow\nGartenhaus\tGarden house\tnoun\none\ttwo\tthree\tfour\n(a) Foo {n} [note] <F, FO>\tbroken (unclosed\tnoun adj. what\n";

#[test]
fn dictionary_from_the_text_of_a_file() {
    let dict = VecDict::create(CONTENT).unwrap();
    assert_eq!(&Language::DE, dict.get_left_language());
    assert_eq!(&Language::EN, dict.get_right_language());
    assert_eq!(Language::DE, dict.language_pair().left_language);
    assert_eq!(Language::EN, dict.language_pair().right_language);
    let entries = dict.get_entries();
    assert_eq!(3, entries.len());
    assert_eq!("Haus", entries[0].left_word.to_string());
    assert_eq!("House", entries[0].right_word.to_string());
    assert_eq!(vec![WordClass::Noun], entries[0].word_classes);
    assert_eq!("Gartenhaus", entries[1].left_word.to_string());
    assert_eq!("garden house", entries[1].right_word.indexed_word);
    assert_eq!(2, entries[1].right_word.word_count);
    assert_eq!(vec![WordClass::Noun, WordClass::Adjective], entries[2].word_classes);
}

#[test]
fn lines_with_another_number_of_fields_give_no_entry() {
    let with = "# DE-EN\na\tb\tnoun\nonly one field\ntwo\tfields\nc\td\tverb\n1\t2\t3\t4\n";
    let without = "# DE-EN\na\tb\tnoun\nc\td\tverb\n";
    let dict = VecDict::create(with).unwrap();
    assert_eq!(2, dict.get_entries().len());
    assert_eq!(VecDict::create(without).unwrap(), dict);
}

#[test]
fn comments_and_the_header_give_no_entry() {
    let dict = VecDict::create("DE-EN\tx\ty\n#a\tb\tnoun\na\tb\tnoun\n").unwrap();
    assert_eq!(1, dict.get_entries().len());
    assert_eq!("a", dict.get_entries()[0].left_word.to_string());
}

#[test]
fn carriage_return_before_the_line_feed_is_no_part_of_the_line() {
    let dict = VecDict::create("# DE-EN\r\na\tb\tnoun\r\nc\td\tverb").unwrap();
    assert_eq!(VecDict::create("# DE-EN\na\tb\tnoun\nc\td\tverb\n").unwrap(), dict);
    assert_eq!(vec![WordClass::Verb], dict.get_entries()[1].word_classes);
}

#[test]
fn a_quote_is_data() {
    let dict = VecDict::create("# DE-EN\n\"a\tb\"\tnoun\n").unwrap();
    assert_eq!("\"a", dict.get_entries()[0].left_word.to_string());
    assert_eq!("b\"", dict.get_entries()[0].right_word.to_string());
}

#[test]
fn dictionary_without_languages_is_refused() {
    for content in ["", "no header\na\tb\tnoun\n", "# comment\n# DE-EN\na\tb\tnoun\n"] {
        assert!(matches!(VecDict::create(content), Err(DictError::LanguageCodeNotFound)));
    }
}

#[test]
fn word_count_and_search_key_of_every_entry() {
    let dict = VecDict::create(CONTENT).unwrap();
    for entry in dict.get_entries() {
        for word in [&entry.left_word, &entry.right_word] {
            let counted = word
                .word_nodes
                .nodes()
                .iter()
                .filter(|n| matches!(n, WordNode::Word(_) | WordNode::Round(_)))
                .count();
            assert_eq!(counted, word.word_count);
            let key: Vec<String> = word
                .word_nodes
                .nodes()
                .iter()
                .filter_map(|n| match n {
                    WordNode::Word(s) | WordNode::Round(s) => Some(s.to_lowercase()),
                    _ => None,
                })
                .collect();
            assert_eq!(key.join(" "), word.indexed_word);
        }
    }
}

#[test]
fn bracket_phrase_in_an_entry() {
    let dict = VecDict::create(CONTENT).unwrap();
    let word = &dict.get_entries()[2].left_word;
    assert_eq!("a foo", word.indexed_word);
    assert_eq!(2, word.word_count);
    assert_eq!(vec!["F".to_string(), "FO".to_string()], word.acronyms());
    assert_eq!(vec!["note".to_string()], word.comments());
    assert_eq!(vec!["n".to_string()], word.genders());
    assert_eq!("Foo", word.plain_word());
    assert_eq!("(a) Foo", word.word_with_optional_parts());
    assert_eq!("(a) Foo {n} [note] <F, FO>", word.to_string());
}

#[test]
fn phrase_that_does_not_parse_is_kept_as_one_word() {
    let dict = VecDict::create(CONTENT).unwrap();
    let word = &dict.get_entries()[2].right_word;
    assert_eq!(
        WordNodes::from(vec![WordNode::Word("broken (unclosed".to_string())]),
        word.word_nodes
    );
    assert_eq!("broken (unclosed", word.indexed_word);
    assert_eq!(1, word.word_count);
    match WordNodes::try_from("broken (unclosed") {
        Err(DictError::WordASTRemainingInput { word, remaining_input }) => {
            assert_eq!("broken (unclosed", word);
            assert_eq!("(unclosed", remaining_input);
        }
        other => panic!("unexpected {:?}", other),
    }
}

#[test]
fn phrase_without_a_fragment_is_refused() {
    for phrase in ["", "   ", "(", "<>", "  [] x"] {
        match WordNodes::try_from(phrase) {
            Err(DictError::WordASTParse { word }) => assert_eq!(phrase, word),
            other => panic!("unexpected {:?}", other),
        }
        assert_eq!(
            WordNodes::from(vec![WordNode::Word(phrase.to_string())]),
            WordNodes::with_fallback_from(phrase)
        );
    }
}

#[test]
fn fragments_need_a_space_between_them() {
    match WordNodes::try_from("Freund(in) x") {
        Err(DictError::WordASTRemainingInput { word, remaining_input }) => {
            assert_eq!("Freund(in) x", word);
            assert_eq!("(in) x", remaining_input);
        }
        other => panic!("unexpected {:?}", other),
    }
    assert_eq!("freund(in) x", DictWord::from(WordNodes::with_fallback_from("Freund(in) x")).indexed_word);
}

#[test]
fn parsed_phrase_written_out_again_differs_in_spaces_only() {
    for phrase in [
        "foo",
        "  foo   (bar baz)  [x]   {f} <a, , b>  ",
        "a) ]b >c (d e) f",
        "(a  b) <x,y,  z>",
    ] {
        let nodes = WordNodes::try_from(phrase).unwrap();
        let written = nodes.to_string();
        let words = |s: &str| -> Vec<String> {
            s.split(' ').filter(|w| !w.is_empty()).map(|w| w.to_string()).collect()
        };
        assert_eq!(words(phrase), words(&written));
        assert_eq!(nodes, WordNodes::try_from(&written).unwrap());
    }
}

#[test]
fn character_references_are_decoded() {
    assert_eq!("a & b", html_decode_with_fallback("a &amp; b"));
    assert_eq!("ärger", html_decode_with_fallback("&auml;rger"));
    assert_eq!("A", html_decode_with_fallback("&#65;"));
    assert_eq!("A", html_decode_with_fallback("&#x41;"));
}

#[test]
fn text_that_cannot_be_decoded_stays_as_it_is() {
    for text in ["x &bogus; y", "a & b", "&#xZZ;", "&amp"] {
        assert_eq!(text, html_decode_with_fallback(text));
    }
}

#[test]
fn plain_text_is_not_changed_by_decoding() {
    for text in ["", "plain text", "ärger (mit) [x] {f} <a, b>", "50 % ; #"] {
        let once = html_decode_with_fallback(text);
        assert_eq!(text, once);
        assert_eq!(once, html_decode_with_fallback(&once));
    }
}

#[test]
fn record_of_a_line() {
    let record = parse_record(&chars("a\tb c\tnoun")).unwrap();
    assert_eq!("a", record.left_word);
    assert_eq!("b c", record.right_word);
    assert_eq!("noun", record.word_classes);
    let empty = parse_record(&chars("\t\t")).unwrap();
    assert_eq!("", empty.left_word);
    assert_eq!("", empty.word_classes);
}

#[test]
fn line_with_another_number_of_fields_is_incomplete() {
    for (line, fields) in [("", 1), ("a", 1), ("a\tb", 2), ("a\tb\tc\td", 4)] {
        let record = parse_record(&chars(line));
        assert!(!incomplete_records_filter(&record));
        match record {
            Err(DictError::IncompleteEntry { expected_len, len }) => {
                assert_eq!(3, expected_len);
                assert_eq!(fields, len);
            }
            other => panic!("unexpected {:?}", other),
        }
    }
    assert!(incomplete_records_filter(&parse_record(&chars("a\tb\tc"))));
    assert!(incomplete_records_filter(&Err(DictError::LanguageCodeNotFound)));
}

#[test]
fn lines_and_records_of_a_file() {
    let lines = read_lines("h\r\na\tb\tc\r\n#x\ty\tz\n\r\nd\te\tf");
    assert_eq!(
        vec![chars("h"), chars("a\tb\tc"), chars("#x\ty\tz"), chars(""), chars("d\te\tf")],
        lines
    );
    let records = read_records(&lines);
    assert_eq!(2, records.len());
    assert_eq!("a", records[0].left_word);
    assert_eq!("f", records[1].word_classes);
    assert_eq!(0, read_records(&Vec::new()).len());
    assert_eq!(0, read_records(&read_lines("a\tb\tc")).len());
}

#[test]
fn entry_from_a_record_step_by_step() {
    let raw = RawDictEntry {
        left_word: "(a) &Auml;rger".to_string(),
        right_word: "trouble <t>".to_string(),
        word_classes: "noun".to_string(),
    };
    let decoded = HtmlDecodedDictEntry::from(&raw);
    assert_eq!("(a) Ärger", decoded.left_word);
    assert_eq!("noun", decoded.word_classes);
    let nodes = WordNodesDictEntry::from(&decoded);
    assert_eq!(nodes, WordNodesDictEntry::try_from(&decoded).unwrap());
    let entry = DictEntry::from(nodes);
    assert_eq!("a ärger", entry.left_word.indexed_word);
    assert_eq!(2, entry.left_word.word_count);
    assert_eq!("trouble", entry.right_word.indexed_word);
    assert_eq!(1, entry.right_word.word_count);
    assert_eq!(2, entry.get_max_word_count());
    assert_eq!(vec![WordClass::Noun], entry.word_classes);
    assert_eq!(entry, entry.duplicate());
}

#[test]
fn record_with_a_phrase_that_does_not_parse() {
    let decoded = HtmlDecodedDictEntry {
        left_word: "ok".to_string(),
        right_word: "(".to_string(),
        word_classes: "".to_string(),
    };
    assert!(matches!(
        WordNodesDictEntry::try_from(&decoded),
        Err(DictError::WordASTParse { .. })
    ));
    let nodes = WordNodesDictEntry::from(&decoded);
    assert_eq!(WordNodes::from(vec![WordNode::Word("(".to_string())]), nodes.right_word_nodes);
}

#[test]
fn tabs_and_line_ends_separate_fragments() {
    let expected = WordNodes::from(vec![
        WordNode::Round("a".to_string()),
        WordNode::Round("b".to_string()),
    ]);
    assert_eq!(expected, WordNodes::try_from("(a)\t(b)").unwrap());
    assert_eq!(expected, WordNodes::try_from("\r\n(a) \t\n (b)\r").unwrap());
    let dict = VecDict::create("# DE-EN\n(a)&#9;(b)\t[x]&#10;y\tnoun\n").unwrap();
    let entry = &dict.get_entries()[0];
    assert_eq!(expected, entry.left_word.word_nodes);
    assert_eq!("a b", entry.left_word.indexed_word);
    assert_eq!("(a) (b)", entry.left_word.to_string());
    assert_eq!("[x] y", entry.right_word.to_string());
}

#[test]
fn a_tab_inside_a_word_belongs_to_the_word() {
    assert_eq!(
        WordNodes::from(vec![WordNode::Word("a\tb".to_string())]),
        WordNodes::try_from("a\tb").unwrap()
    );
    assert_eq!(
        WordNodes::from(vec![
            WordNode::Word("a\t".to_string()),
            WordNode::Word("b".to_string())
        ]),
        WordNodes::try_from("a\t b").unwrap()
    );
    match WordNodes::try_from("a\t(b)") {
        Err(DictError::WordASTRemainingInput { remaining_input, .. }) => {
            assert_eq!("(b)", remaining_input)
        }
        other => panic!("unexpected {:?}", other),
    }
}
