use dictcc::error::DictError;
use dictcc::parse::raw_csv::RawDictEntry;
use dictcc::read::{entry_from, DictId, DictccMetadata, DictccReader};
use dictcc::{DictLanguagePair, Language, VecDict, WordClass};

const CONTENT: &str = "# DE-EN vocabulary database\n# comment\nHaus\tHouse\tnoun\nshort\trow\n&Auml;rger (mit)\ttrouble [with]\tnoun\n";

#[test]
fn reader_gives_languages_records_and_entries() {
    let (reader, languages) = DictccReader::new(CONTENT).unwrap();
    assert_eq!(Language::DE, languages.left_language);
    assert_eq!(Language::EN, languages.right_language);
    let records = reader.raw_entries();
    assert_eq!(2, records.len());
    assert_eq!("&Auml;rger (mit)", records[1].left_word);
    assert_eq!("trouble [with]", records[1].right_word);
    assert_eq!("noun", records[1].word_classes);
    let entries = reader.entries();
    assert_eq!(2, entries.len());
    assert_eq!("ärger mit", entries[1].left_word.indexed_word);
    assert_eq!(2, entries[1].left_word.word_count);
    assert_eq!("trouble", entries[1].right_word.indexed_word);
    assert_eq!(1, entries[1].right_word.word_count);
    assert_eq!(entries.as_slice(), VecDict::create(CONTENT).unwrap().get_entries());
}

#[test]
fn reader_needs_the_languages() {
    assert!(matches!(DictccReader::new("x\ny\n"), Err(DictError::LanguageCodeNotFound)));
}

#[test]
fn entry_of_one_record() {
    let record = RawDictEntry {
        left_word: "to go {verb}".to_string(),
        right_word: "gehen".to_string(),
        word_classes: "verb past-p".to_string(),
    };
    let entry = entry_from(&record);
    assert_eq!("to go", entry.left_word.indexed_word);
    assert_eq!(vec!["verb".to_string()], entry.left_word.genders());
    assert_eq!(vec![WordClass::Verb, WordClass::Past], entry.word_classes);
}

#[test]
fn name_of_a_dictionary_in_a_store() {
    let languages =
        DictLanguagePair { left_language: Language::DE, right_language: Language::EN };
    assert_eq!("entries_DE_EN", DictId::from(&languages).as_str());
    let metadata = DictccMetadata::new(languages.duplicate(), "/tmp/de-en.txt".to_string());
    assert_eq!(languages, metadata.languages);
    assert_eq!("/tmp/de-en.txt", metadata.path);
    assert_eq!(DictId::from(&languages), metadata.dict_id);
}
