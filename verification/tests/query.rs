use dictcc::error::DictError;
use dictcc::query::{build_pattern, select, Matcher, QueryDirection, QueryType};
use dictcc::{DictEntry, Language, VecDict};

const CONTENT: &str = "# DE-EN vocabulary database\nHaus\tHouse\tnoun\nGartenhaus\tGarden house\tnoun\nhouse\tHaus\tnoun\nto house sb.\tjdn. unterbringen\tverb\nfull-house\tvolles Haus\tnoun\nhousehold\tHaushalt\tnoun\nbroken (unclosed\tx\tnoun\n";

fn left(entries: &[DictEntry]) -> Vec<String> {
    entries.iter().map(|e| e.left_word.to_string()).collect()
}

fn run(dict: &VecDict, term: &str, query_type: QueryType, direction: QueryDirection) -> Vec<String> {
    let mut query = dict.query(term);
    query.set_type(query_type).set_direction(direction);
    left(query.execute().unwrap().entries())
}

#[test]
fn word_query_in_both_directions() {
    let dict = VecDict::create(
        "# DE-EN vocabulary database\nHaus\tHouse\tnoun\nGartenhaus\tGarden house\tnoun\n",
    )
    .unwrap();
    let result = dict.query("house").execute().unwrap();
    assert_eq!(QueryDirection::Bidirectional, result.query_direction);
    assert_eq!(vec!["Haus", "Gartenhaus"], left(result.entries()));
    assert_eq!(dict.get_entries(), result.entries());
}

#[test]
fn new_query_looks_for_a_word_in_both_directions() {
    let dict = VecDict::create(CONTENT).unwrap();
    let query = dict.query("x");
    assert_eq!(QueryType::Word, query.query_type);
    assert_eq!(QueryDirection::Bidirectional, query.query_direction);
    assert_eq!("x", query.query_term);
    assert_eq!(QueryType::Word, QueryType::default());
    assert_eq!(QueryDirection::Bidirectional, QueryDirection::default());
}

#[test]
fn word_query_matches_whole_words() {
    let dict = VecDict::create(CONTENT).unwrap();
    assert_eq!(
        vec!["Haus", "Gartenhaus", "house", "to house sb.", "full-house"],
        run(&dict, "house", QueryType::Word, QueryDirection::Bidirectional)
    );
    assert_eq!(
        vec!["house", "to house sb.", "full-house"],
        run(&dict, "HOUSE", QueryType::Word, QueryDirection::ToRight)
    );
    assert_eq!(
        vec!["Haus", "Gartenhaus"],
        run(&dict, "house", QueryType::Word, QueryDirection::ToLeft)
    );
}

#[test]
fn exact_query_matches_the_whole_search_key() {
    let dict = VecDict::create(CONTENT).unwrap();
    assert_eq!(
        vec!["Haus", "house"],
        run(&dict, "House", QueryType::Exact, QueryDirection::Bidirectional)
    );
    assert_eq!(
        vec!["Gartenhaus"],
        run(&dict, "garden house", QueryType::Exact, QueryDirection::ToLeft)
    );
    assert_eq!(
        Vec::<String>::new(),
        run(&dict, "garden", QueryType::Exact, QueryDirection::ToLeft)
    );
}

#[test]
fn regex_query_matches_the_whole_search_key() {
    let dict = VecDict::create(CONTENT).unwrap();
    assert_eq!(
        vec!["house", "household"],
        run(&dict, "house.*", QueryType::Regex, QueryDirection::ToRight)
    );
    assert_eq!(
        vec!["Haus", "house", "household"],
        run(&dict, "h.*", QueryType::Regex, QueryDirection::Bidirectional)
    );
    assert_eq!(7, run(&dict, ".*", QueryType::Regex, QueryDirection::Bidirectional).len());
}

#[test]
fn both_directions_give_the_union_of_the_two_directions() {
    let dict = VecDict::create(CONTENT).unwrap();
    for (term, query_type) in [
        ("house", QueryType::Word),
        ("haus", QueryType::Word),
        ("haus", QueryType::Exact),
        ("h.*s", QueryType::Regex),
        ("nothing", QueryType::Word),
    ] {
        let both = run(&dict, term, query_type, QueryDirection::Bidirectional);
        let to_right = run(&dict, term, query_type, QueryDirection::ToRight);
        let to_left = run(&dict, term, query_type, QueryDirection::ToLeft);
        let union: Vec<String> = left(dict.get_entries())
            .into_iter()
            .filter(|e| to_right.contains(e) || to_left.contains(e))
            .collect();
        assert_eq!(union, both);
    }
}

#[test]
fn exact_hits_are_word_hits() {
    let dict = VecDict::create(CONTENT).unwrap();
    for term in ["house", "haus", "garden house", "x", "to house sb.", "(unclosed", ""] {
        for direction in
            [QueryDirection::ToRight, QueryDirection::ToLeft, QueryDirection::Bidirectional]
        {
            let exact = run(&dict, term, QueryType::Exact, direction);
            let word = run(&dict, term, QueryType::Word, direction);
            assert!(exact.iter().all(|e| word.contains(e)), "{:?}", term);
        }
    }
}

#[test]
fn term_of_a_word_query_is_taken_as_it_is_written() {
    let dict = VecDict::create(CONTENT).unwrap();
    assert_eq!(
        vec!["broken (unclosed"],
        run(&dict, "(unclosed", QueryType::Word, QueryDirection::ToRight)
    );
    assert_eq!(
        vec!["to house sb."],
        run(&dict, "sb.", QueryType::Word, QueryDirection::ToRight)
    );
    assert_eq!(
        Vec::<String>::new(),
        run(&dict, "s..", QueryType::Word, QueryDirection::ToRight)
    );
    assert_eq!(Vec::<String>::new(), run(&dict, "*", QueryType::Word, QueryDirection::ToRight));
    assert_eq!(Vec::<String>::new(), run(&dict, "*", QueryType::Exact, QueryDirection::ToRight));
}

#[test]
fn pattern_that_does_not_compile_is_refused() {
    let dict = VecDict::create(CONTENT).unwrap();
    for term in ["(", "[a", "a{2", "a)"] {
        let mut query = dict.query(term);
        query.regex();
        assert!(matches!(query.execute(), Err(DictError::Regex(_))), "{:?}", term);
        assert!(dict.query(term).execute().is_ok());
        assert!(dict.query(term).exact().execute().is_ok());
    }
    assert!(matches!(Matcher::new("("), Err(DictError::Regex(_))));
}

#[test]
fn empty_term() {
    let dict = VecDict::create("# DE-EN\na\tb\tnoun\n\tc d\tnoun\ne -f\tg\tnoun\n").unwrap();
    assert_eq!(vec!["", "e -f"], run(&dict, "", QueryType::Word, QueryDirection::Bidirectional));
    assert_eq!(vec![""], run(&dict, "", QueryType::Exact, QueryDirection::Bidirectional));
    assert_eq!(vec![""], run(&dict, "", QueryType::Regex, QueryDirection::Bidirectional));
}

#[test]
fn patterns_of_the_query_types() {
    assert_eq!("(^|\\s|-)house($|\\s|-)", build_pattern(QueryType::Word, "house"));
    assert_eq!("^house$", build_pattern(QueryType::Exact, "house"));
    assert_eq!("^h.*$", build_pattern(QueryType::Regex, "h.*"));
    assert_eq!("(^|\\s|-)a\\.b\\*($|\\s|-)", build_pattern(QueryType::Word, "a.b*"));
    assert_eq!(
        "^\\\\\\.\\+\\*\\?\\(\\)\\|\\[\\]\\{\\}\\^\\$\\#\\&\\-\\~ab c%$",
        build_pattern(QueryType::Exact, "\\.+*?()|[]{}^$#&-~ab c%")
    );
}

#[test]
fn matcher_and_selection() {
    let dict = VecDict::create(CONTENT).unwrap();
    let matcher = Matcher::new("^h").unwrap();
    assert!(matcher.is_match("Haus"));
    assert!(matcher.is_match("house"));
    assert!(!matcher.is_match("a house"));
    assert!(matcher.hits(&dict.get_entries()[0], QueryDirection::ToRight));
    assert!(!matcher.hits(&dict.get_entries()[1], QueryDirection::ToRight));
    assert!(!matcher.hits(&dict.get_entries()[1], QueryDirection::ToLeft));
    assert!(matcher.hits(&dict.get_entries()[2], QueryDirection::ToLeft));
    assert!(matcher.hits(&dict.get_entries()[5], QueryDirection::Bidirectional));
    let result = select(dict.get_entries(), &matcher, QueryDirection::ToRight);
    assert_eq!(QueryDirection::ToRight, result.query_direction);
    assert_eq!(vec!["Haus", "house", "household"], left(result.entries()));
}

#[test]
fn every_name_of_a_query_type() {
    for (name, query_type) in [
        ("w", QueryType::Word),
        ("word", QueryType::Word),
        ("WORD", QueryType::Word),
        ("e", QueryType::Exact),
        ("Exact", QueryType::Exact),
        ("r", QueryType::Regex),
        ("regex", QueryType::Regex),
        ("R", QueryType::Regex),
    ] {
        assert_eq!(query_type, QueryType::from_str(name).unwrap());
    }
}

#[test]
fn unknown_query_type_is_refused() {
    for (name, lower) in [("x", "x"), ("", ""), ("Words", "words"), ("REGEXP", "regexp")] {
        match QueryType::from_str(name) {
            Err(DictError::UnknownQueryType { query_type }) => assert_eq!(lower, query_type),
            other => panic!("unexpected {:?}", other),
        }
    }
}

#[test]
fn source_language_sets_the_direction() {
    let dict = VecDict::create(CONTENT).unwrap();
    let mut query = dict.query("haus");
    query.source_language(&Language::EN).unwrap();
    assert_eq!(QueryDirection::ToLeft, query.query_direction);
    assert_eq!(vec!["house", "full-house"], left(query.execute().unwrap().entries()));
    query.source_language(&Language::DE).unwrap();
    assert_eq!(QueryDirection::ToRight, query.query_direction);
    assert_eq!(vec!["Haus"], left(query.execute().unwrap().entries()));
    match query.source_language(&Language::FR) {
        Err(DictError::InvalidSourceLanguage { source_language }) => {
            assert_eq!(Language::FR, source_language)
        }
        other => panic!("unexpected {:?}", other.map(|_| ())),
    }
    assert_eq!(QueryDirection::ToRight, query.query_direction);
}

#[test]
fn setters_of_a_query() {
    let dict = VecDict::create(CONTENT).unwrap();
    let mut query = dict.query("haus");
    query.exact();
    assert_eq!(QueryType::Exact, query.query_type);
    query.regex();
    assert_eq!(QueryType::Regex, query.query_type);
    query.word();
    assert_eq!(QueryType::Word, query.query_type);
    query.set_type(QueryType::Exact).set_direction(QueryDirection::ToLeft);
    assert_eq!(QueryType::Exact, query.query_type);
    assert_eq!(QueryDirection::ToLeft, query.query_direction);
    let other = query.set_term("house");
    assert_eq!("house", other.query_term);
    assert_eq!(QueryType::Exact, other.query_type);
    assert_eq!(QueryDirection::ToLeft, other.query_direction);
    assert_eq!(vec!["Haus"], left(other.execute().unwrap().entries()));
}

#[test]
fn queries_in_the_three_directions_succeed_together() {
    let dict = VecDict::create(CONTENT).unwrap();
    for (term, query_type) in [
        ("(", QueryType::Regex),
        ("(", QueryType::Word),
        ("h.*", QueryType::Regex),
        ("a{2", QueryType::Regex),
        ("", QueryType::Exact),
    ] {
        let mut outcomes = Vec::new();
        for direction in
            [QueryDirection::Bidirectional, QueryDirection::ToRight, QueryDirection::ToLeft]
        {
            let mut query = dict.query(term);
            query.set_type(query_type).set_direction(direction);
            outcomes.push(query.execute().is_ok());
        }
        assert_eq!(outcomes[0], outcomes[1]);
        assert_eq!(outcomes[0], outcomes[2]);
        assert_eq!(
            outcomes[0],
            Matcher::new(&build_pattern(query_type, term)).is_ok()
        );
    }
}
