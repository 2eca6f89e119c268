use dictcc::error::DictError;
use dictcc::query::QueryDirection;
use dictcc::{DictLanguagePair, Language};

fn de_en() -> DictLanguagePair {
    DictLanguagePair { left_language: Language::DE, right_language: Language::EN }
}

#[test]
fn header_names_the_languages() {
    let pair = DictLanguagePair::from_header("# DE-EN vocabulary database").unwrap();
    assert_eq!(de_en(), pair);
}

#[test]
fn header_without_hash_names_the_languages() {
    let pair = DictLanguagePair::from_header("FR-IT dictionary").unwrap();
    assert_eq!(Language::FR, pair.left_language);
    assert_eq!(Language::IT, pair.right_language);
}

#[test]
fn first_pair_of_codes_in_the_header_counts() {
    let pair = DictLanguagePair::from_header("xx ABC-DEF EN-FR").unwrap();
    assert_eq!(Language::Other { language_code: "BC".to_string() }, pair.left_language);
    assert_eq!(Language::DE, pair.right_language);
}

#[test]
fn header_without_codes_is_refused() {
    for header in ["", "# vocabulary database", "de-en", "DE_EN", "D-EN", "DE-E"] {
        assert!(matches!(
            DictLanguagePair::from_header(header),
            Err(DictError::LanguageCodeNotFound)
        ));
    }
}

#[test]
fn language_from_code_in_any_case() {
    assert_eq!(Language::DE, Language::from_str("DE").unwrap());
    assert_eq!(Language::DE, Language::from_str("de").unwrap());
    assert_eq!(Language::EN, Language::from_str("En").unwrap());
    assert_eq!(Language::SQ, Language::from_str("sq").unwrap());
    assert_eq!(Language::TR, Language::from_str("TR").unwrap());
}

#[test]
fn unlisted_code_gives_other_language_in_upper_case() {
    assert_eq!(
        Language::Other { language_code: "XX".to_string() },
        Language::from_str("xx").unwrap()
    );
    assert_eq!(
        Language::Other { language_code: "ZH".to_string() },
        Language::from_str("ZH").unwrap()
    );
}

#[test]
fn code_of_another_length_is_refused() {
    for code in ["", "d", "deu", "DE-EN"] {
        match Language::from_str(code) {
            Err(DictError::InvalidLanguageCode { lang }) => assert_eq!(code, lang),
            other => panic!("unexpected {:?}", other),
        }
    }
}

#[test]
fn from_code_takes_the_code_as_written() {
    assert_eq!(Language::DE, Language::from_code("DE"));
    assert_eq!(Language::Other { language_code: "de".to_string() }, Language::from_code("de"));
}

#[test]
fn codes_and_names() {
    assert_eq!("DE", Language::DE.language_code());
    assert_eq!("German", Language::DE.to_string());
    assert_eq!("EN", Language::EN.language_code());
    assert_eq!("English", Language::EN.to_string());
    assert_eq!("SQ", Language::SQ.language_code());
    assert_eq!("Albanian", Language::SQ.to_string());
    assert_eq!("TR", Language::TR.language_code());
    assert_eq!("Turkish", Language::TR.to_string());
    let other = Language::Other { language_code: "XX".to_string() };
    assert_eq!("XX", other.language_code());
    assert_eq!("Other Language: XX", other.to_string());
}

#[test]
fn every_listed_code_gives_its_language_back() {
    let listed = [
        Language::SQ, Language::BS, Language::BG, Language::HR, Language::CS, Language::DA,
        Language::NL, Language::EN, Language::EO, Language::FI, Language::FR, Language::DE,
        Language::EL, Language::HU, Language::IS, Language::IT, Language::LA, Language::NO,
        Language::PL, Language::PT, Language::RO, Language::RU, Language::SR, Language::SK,
        Language::ES, Language::SV, Language::TR,
    ];
    for language in listed.iter() {
        let code = language.language_code();
        assert_eq!(2, code.len());
        assert_eq!(*language, Language::from_str(&code).unwrap());
        assert!(language.is_listed());
        assert!(language.same(&language.duplicate()));
    }
    assert!(!Language::DE.same(&Language::EN));
    assert!(!Language::DE.same(&Language::Other { language_code: "DE".to_string() }));
}

#[test]
fn direction_from_source_language() {
    let pair = de_en();
    assert_eq!(QueryDirection::ToLeft, pair.infer_query_direction(&Language::EN).unwrap());
    assert_eq!(QueryDirection::ToRight, pair.infer_query_direction(&Language::DE).unwrap());
    match pair.infer_query_direction(&Language::FR) {
        Err(DictError::InvalidSourceLanguage { source_language }) => {
            assert_eq!(Language::FR, source_language)
        }
        other => panic!("unexpected {:?}", other),
    }
}

#[test]
fn left_language_wins_where_both_are_the_same() {
    let pair = DictLanguagePair { left_language: Language::DE, right_language: Language::DE };
    assert_eq!(QueryDirection::ToRight, pair.infer_query_direction(&Language::DE).unwrap());
}

#[test]
fn pair_as_text() {
    assert_eq!("DE_EN", de_en().to_string());
    assert_eq!(de_en(), de_en().duplicate());
}
