use dictcc::error::DictError;
use dictcc::grouped::WordClassesGroup;
use dictcc::{Gender, WordClass};

#[test]
fn every_word_class_tag() {
    let tags = [
        ("adj", WordClass::Adjective),
        ("adv", WordClass::Adverb),
        ("past-p", WordClass::Past),
        ("verb", WordClass::Verb),
        ("pres-p", WordClass::PresentParticiple),
        ("prep", WordClass::Preposition),
        ("conj", WordClass::Conjunction),
        ("pron", WordClass::Pronoun),
        ("prefix", WordClass::Prefix),
        ("suffix", WordClass::Suffix),
        ("noun", WordClass::Noun),
    ];
    for (tag, class) in tags {
        assert_eq!(class, WordClass::from_str(tag).unwrap());
        assert_eq!(class, WordClass::try_from(tag).unwrap());
        assert_eq!(class, WordClass::from_str(&format!("{}.", tag)).unwrap());
    }
}

#[test]
fn full_stops_at_the_end_do_not_count() {
    assert_eq!(WordClass::Noun, WordClass::from_str("noun...").unwrap());
    match WordClass::from_str("no.un.") {
        Err(DictError::UnknownWordClass { word_class }) => assert_eq!("no.un", word_class),
        other => panic!("unexpected {:?}", other),
    }
}

#[test]
fn unknown_word_class_is_refused() {
    for (tag, stripped) in [("xyz", "xyz"), ("xyz.", "xyz"), ("", ""), ("Noun", "Noun"), (".", "")] {
        match WordClass::from_str(tag) {
            Err(DictError::UnknownWordClass { word_class }) => assert_eq!(stripped, word_class),
            other => panic!("unexpected {:?}", other),
        }
    }
}

#[test]
fn list_of_word_classes_passes_over_unknown_tokens() {
    assert_eq!(
        vec![WordClass::Noun, WordClass::Adjective, WordClass::Verb],
        WordClass::with_fallback_from("noun adj. foo verb")
    );
    assert_eq!(vec![WordClass::Noun, WordClass::Noun], WordClass::with_fallback_from("noun noun"));
    assert_eq!(Vec::<WordClass>::new(), WordClass::with_fallback_from(""));
    assert_eq!(Vec::<WordClass>::new(), WordClass::with_fallback_from("   "));
    assert_eq!(vec![WordClass::Verb], WordClass::with_fallback_from("  verb  "));
    assert_eq!(
        vec![WordClass::Adverb, WordClass::Past],
        WordClass::with_fallback_from("adv\tpast-p")
    );
}

#[test]
fn names_of_word_classes() {
    assert_eq!("Adjective", WordClass::Adjective.to_string());
    assert_eq!("PresentParticiple", WordClass::PresentParticiple.to_string());
    assert_eq!("Past", WordClass::Past.to_string());
    assert_eq!("Noun", WordClass::Noun.to_string());
}

#[test]
fn every_gender_tag() {
    let tags = [
        ("f", Gender::Feminine),
        ("m", Gender::Masculine),
        ("n", Gender::Neuter),
        ("pl", Gender::Plural),
        ("sg", Gender::Singular),
    ];
    for (tag, gender) in tags {
        assert_eq!(gender, Gender::from_str(tag).unwrap());
        assert_eq!(gender, Gender::from_str(&format!("{}.", tag)).unwrap());
    }
    assert_eq!("Feminine", Gender::Feminine.to_string());
    assert_eq!("Singular", Gender::Singular.to_string());
}

#[test]
fn unknown_gender_is_refused() {
    match Gender::from_str("x.") {
        Err(DictError::UnknownGender { name }) => assert_eq!("x", name),
        other => panic!("unexpected {:?}", other),
    }
}

#[test]
fn coarse_group_of_word_classes() {
    assert_eq!(
        WordClassesGroup::Verbs,
        WordClassesGroup::from(&[WordClass::Adjective, WordClass::Noun, WordClass::Verb])
    );
    assert_eq!(
        WordClassesGroup::Nouns,
        WordClassesGroup::from(&[WordClass::Noun, WordClass::Adjective])
    );
    assert_eq!(WordClassesGroup::Others, WordClassesGroup::from(&[WordClass::Adjective]));
    assert_eq!(WordClassesGroup::Others, WordClassesGroup::from(&[]));
    assert!(WordClassesGroup::Verbs < WordClassesGroup::Nouns);
    assert!(WordClassesGroup::Nouns < WordClassesGroup::Others);
    assert_eq!("Verbs", WordClassesGroup::Verbs.to_string());
    assert_eq!("Nouns", WordClassesGroup::Nouns.to_string());
    assert_eq!("Others", WordClassesGroup::Others.to_string());
}
