use dictcc::error::DictError;
use dictcc::parse::html::html_decode;
use dictcc::query::Matcher;
use dictcc::Language;

#[test]
fn messages_of_the_errors() {
    assert_eq!(
        "Unknown gender name: x",
        DictError::UnknownGender { name: "x".to_string() }.to_string()
    );
    assert_eq!(
        "Unknown word class: x",
        DictError::UnknownWordClass { word_class: "x".to_string() }.to_string()
    );
    assert_eq!(
        "Unknown query type: x",
        DictError::UnknownQueryType { query_type: "x".to_string() }.to_string()
    );
    assert_eq!(
        "Invalid language code: deu",
        DictError::InvalidLanguageCode { lang: "deu".to_string() }.to_string()
    );
    assert_eq!(
        "Invalid source language: French",
        DictError::InvalidSourceLanguage { source_language: Language::FR }.to_string()
    );
    assert_eq!(
        "Invalid source language: Other Language: XX",
        DictError::InvalidSourceLanguage {
            source_language: Language::Other { language_code: "XX".to_string() }
        }
        .to_string()
    );
    assert_eq!("Language code not found", DictError::LanguageCodeNotFound.to_string());
    assert_eq!("broken pipe", DictError::Io { cause: "broken pipe".to_string() }.to_string());
}

#[test]
fn messages_that_quote_a_text() {
    assert_eq!(
        "Could not completely parse \"a (b\": remaining input: \"(b\"",
        DictError::WordASTRemainingInput {
            word: "a (b".to_string(),
            remaining_input: "(b".to_string()
        }
        .to_string()
    );
    assert_eq!(
        "Could not parse \"say \\\"x\\\"\"",
        DictError::WordASTParse { word: "say \"x\"".to_string() }.to_string()
    );
    assert_eq!(
        "Could not decode HTML character references: \"&x;\\t\"",
        DictError::HtmlDecode { input: "&x;\t".to_string() }.to_string()
    );
    assert_eq!(
        "Could not open dictionary file at \"/no/such file\": not found",
        DictError::FileOpen { path: "/no/such file".to_string(), cause: "not found".to_string() }
            .to_string()
    );
}

#[test]
fn message_of_an_incomplete_entry() {
    assert_eq!(
        "Incomplete entry in dictionary: found record with 12 fields, but a record has 3 fields",
        DictError::IncompleteEntry { expected_len: 3, len: 12 }.to_string()
    );
}

#[test]
fn message_of_a_pattern_that_does_not_compile() {
    match Matcher::new("(") {
        Err(err) => {
            assert!(matches!(err, DictError::Regex(_)));
            assert!(err.to_string().contains("unclosed group"));
        }
        Ok(_) => panic!("the pattern compiled"),
    }
}

#[test]
fn text_that_cannot_be_decoded_is_refused() {
    assert_eq!("a & b", html_decode("a &amp; b").unwrap());
    assert_eq!("plain", html_decode("plain").unwrap());
    for text in ["x &bogus; y", "a & b", "&#xZZ;", "&amp"] {
        match html_decode(text) {
            Err(DictError::HtmlDecode { input }) => assert_eq!(text, input),
            other => panic!("unexpected {:?}", other),
        }
    }
}
