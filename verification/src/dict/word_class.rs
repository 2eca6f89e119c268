//! Word classes and genders, and how they are written in a dictionary.

use vstd::prelude::*;
use crate::error::{DictError, DictResult};
use crate::text::{chars_of, same_text, split_tokens, string_of, texts_of, tokens};

verus! {

/// The gender of a word.
#[derive(Clone, Copy, Debug, PartialEq, Eq, Structural)]
pub enum Gender {
    Feminine,
    Masculine,
    Neuter,
    Plural,
    Singular,
}

/// The class of a word.
#[derive(Clone, Copy, Debug, PartialEq, Eq, PartialOrd, Ord, Structural)]
pub enum WordClass {
    Adjective,
    Adverb,
    Past,
    Verb,
    PresentParticiple,
    Preposition,
    Conjunction,
    Pronoun,
    Prefix,
    Suffix,
    Noun,
}

/// `s` without the full stops at its end.
pub open spec fn without_stops(s: Seq<char>) -> Seq<char>
    decreases s.len(),
{
    if s.len() > 0 && s.last() == '.' {
        without_stops(s.drop_last())
    } else {
        s
    }
}

/// The gender that the tag `tag` stands for, if it is the tag of one.
pub open spec fn gender_of(tag: Seq<char>) -> Option<Gender> {
    if tag == "f"@ {
        Some(Gender::Feminine)
    } else if tag == "m"@ {
        Some(Gender::Masculine)
    } else if tag == "n"@ {
        Some(Gender::Neuter)
    } else if tag == "pl"@ {
        Some(Gender::Plural)
    } else if tag == "sg"@ {
        Some(Gender::Singular)
    } else {
        None
    }
}

/// The word class that the tag `tag` stands for, if it is the tag of one.
pub open spec fn word_class_of(tag: Seq<char>) -> Option<WordClass> {
    if tag == "adj"@ {
        Some(WordClass::Adjective)
    } else if tag == "adv"@ {
        Some(WordClass::Adverb)
    } else if tag == "past-p"@ {
        Some(WordClass::Past)
    } else if tag == "verb"@ {
        Some(WordClass::Verb)
    } else if tag == "pres-p"@ {
        Some(WordClass::PresentParticiple)
    } else if tag == "prep"@ {
        Some(WordClass::Preposition)
    } else if tag == "conj"@ {
        Some(WordClass::Conjunction)
    } else if tag == "pron"@ {
        Some(WordClass::Pronoun)
    } else if tag == "prefix"@ {
        Some(WordClass::Prefix)
    } else if tag == "suffix"@ {
        Some(WordClass::Suffix)
    } else if tag == "noun"@ {
        Some(WordClass::Noun)
    } else {
        None
    }
}

/// The word class that a token of a list of word classes stands for, if it
/// stands for one: full stops at its end do not count.
pub open spec fn token_class(token: Seq<char>) -> Option<WordClass> {
    word_class_of(without_stops(token))
}

/// The word classes that a list names: those of its tokens that stand for a
/// word class, in order. Other tokens are passed over.
pub open spec fn word_classes_of(list: Seq<char>) -> Seq<WordClass> {
    tokens(list).filter_map(|token: Seq<char>| token_class(token))
}

/// The position behind the last character of `cs` that is no full stop.
fn stops_start(cs: &Vec<char>) -> (end: usize)
    ensures
        end <= cs.len(),
        cs@.subrange(0, end as int) == without_stops(cs@),
{
    let mut end: usize = cs.len();
    assert(cs@.subrange(0, end as int) =~= cs@);
    while end > 0 && cs[end - 1] == '.'
        invariant
            end <= cs.len(),
            without_stops(cs@) == without_stops(cs@.subrange(0, end as int)),
        decreases end,
    {
        assert(cs@.subrange(0, end as int).drop_last() =~= cs@.subrange(0, end - 1));
        end -= 1;
    }
    end
}

impl Gender {
    /// The name of the gender.
    pub open spec fn name(self) -> Seq<char> {
        match self {
            Gender::Feminine => "Feminine"@,
            Gender::Masculine => "Masculine"@,
            Gender::Neuter => "Neuter"@,
            Gender::Plural => "Plural"@,
            Gender::Singular => "Singular"@,
        }
    }

    /// The name of the gender.
    pub fn to_string(&self) -> (r: String)
        ensures
            r@ == self.name(),
    {
        match self {
            Gender::Feminine => "Feminine".to_owned(),
            Gender::Masculine => "Masculine".to_owned(),
            Gender::Neuter => "Neuter".to_owned(),
            Gender::Plural => "Plural".to_owned(),
            Gender::Singular => "Singular".to_owned(),
        }
    }

    /// The gender that `s` stands for. Full stops at the end of `s` do not
    /// count.
    ///
    /// Fails with `UnknownGender`, and `s` without those full stops, where
    /// that is the tag of no gender.
    pub fn from_str(s: &str) -> (r: DictResult<Gender>)
        ensures
            match r {
                Ok(gender) => gender_of(without_stops(s@)) == Some(gender),
                Err(DictError::UnknownGender { name }) => {
                    &&& gender_of(without_stops(s@)) is None
                    &&& name@ == without_stops(s@)
                },
                Err(_) => false,
            },
    {
        let cs = chars_of(s);
        let end = stops_start(&cs);
        let tag = string_of(&cs, 0, end);
        let t = tag.as_str();
        if same_text(t, "f") {
            Ok(Gender::Feminine)
        } else if same_text(t, "m") {
            Ok(Gender::Masculine)
        } else if same_text(t, "n") {
            Ok(Gender::Neuter)
        } else if same_text(t, "pl") {
            Ok(Gender::Plural)
        } else if same_text(t, "sg") {
            Ok(Gender::Singular)
        } else {
            Err(DictError::UnknownGender { name: tag })
        }
    }
}

impl WordClass {
    /// The name of the word class.
    pub open spec fn name(self) -> Seq<char> {
        match self {
            WordClass::Adjective => "Adjective"@,
            WordClass::Adverb => "Adverb"@,
            WordClass::Past => "Past"@,
            WordClass::Verb => "Verb"@,
            WordClass::PresentParticiple => "PresentParticiple"@,
            WordClass::Preposition => "Preposition"@,
            WordClass::Conjunction => "Conjunction"@,
            WordClass::Pronoun => "Pronoun"@,
            WordClass::Prefix => "Prefix"@,
            WordClass::Suffix => "Suffix"@,
            WordClass::Noun => "Noun"@,
        }
    }

    /// The name of the word class.
    pub fn to_string(&self) -> (r: String)
        ensures
            r@ == self.name(),
    {
        match self {
            WordClass::Adjective => "Adjective".to_owned(),
            WordClass::Adverb => "Adverb".to_owned(),
            WordClass::Past => "Past".to_owned(),
            WordClass::Verb => "Verb".to_owned(),
            WordClass::PresentParticiple => "PresentParticiple".to_owned(),
            WordClass::Preposition => "Preposition".to_owned(),
            WordClass::Conjunction => "Conjunction".to_owned(),
            WordClass::Pronoun => "Pronoun".to_owned(),
            WordClass::Prefix => "Prefix".to_owned(),
            WordClass::Suffix => "Suffix".to_owned(),
            WordClass::Noun => "Noun".to_owned(),
        }
    }

    /// The word class that `s` stands for. Full stops at the end of `s` do
    /// not count.
    ///
    /// Fails with `UnknownWordClass`, and `s` without those full stops,
    /// where that is the tag of no word class.
    pub fn from_str(s: &str) -> (r: DictResult<WordClass>)
        ensures
            match r {
                Ok(class) => token_class(s@) == Some(class),
                Err(DictError::UnknownWordClass { word_class }) => {
                    &&& token_class(s@) is None
                    &&& word_class@ == without_stops(s@)
                },
                Err(_) => false,
            },
    {
        let cs = chars_of(s);
        WordClass::from_chars(&cs)
    }

    /// The word class that `s` stands for; see `from_str`.
    pub fn try_from(s: &str) -> (r: DictResult<WordClass>)
        ensures
            match r {
                Ok(class) => token_class(s@) == Some(class),
                Err(DictError::UnknownWordClass { word_class }) => {
                    &&& token_class(s@) is None
                    &&& word_class@ == without_stops(s@)
                },
                Err(_) => false,
            },
    {
        WordClass::from_str(s)
    }

    /// The word class that the characters `cs` stand for; see `from_str`.
    fn from_chars(cs: &Vec<char>) -> (r: DictResult<WordClass>)
        ensures
            match r {
                Ok(class) => token_class(cs@) == Some(class),
                Err(DictError::UnknownWordClass { word_class }) => {
                    &&& token_class(cs@) is None
                    &&& word_class@ == without_stops(cs@)
                },
                Err(_) => false,
            },
    {
        let end = stops_start(cs);
        let tag = string_of(cs, 0, end);
        let t = tag.as_str();
        if same_text(t, "adj") {
            Ok(WordClass::Adjective)
        } else if same_text(t, "adv") {
            Ok(WordClass::Adverb)
        } else if same_text(t, "past-p") {
            Ok(WordClass::Past)
        } else if same_text(t, "verb") {
            Ok(WordClass::Verb)
        } else if same_text(t, "pres-p") {
            Ok(WordClass::PresentParticiple)
        } else if same_text(t, "prep") {
            Ok(WordClass::Preposition)
        } else if same_text(t, "conj") {
            Ok(WordClass::Conjunction)
        } else if same_text(t, "pron") {
            Ok(WordClass::Pronoun)
        } else if same_text(t, "prefix") {
            Ok(WordClass::Prefix)
        } else if same_text(t, "suffix") {
            Ok(WordClass::Suffix)
        } else if same_text(t, "noun") {
            Ok(WordClass::Noun)
        } else {
            Err(DictError::UnknownWordClass { word_class: tag })
        }
    }

    /// The word classes that the list `word_classes` names: those of its
    /// tokens that stand for a word class, in order. A token that stands for
    /// none is passed over.
    pub fn with_fallback_from(word_classes: &str) -> (r: Vec<WordClass>)
        ensures
            r@ == word_classes_of(word_classes@),
    {
        let cs = chars_of(word_classes);
        let parts = split_tokens(&cs);
        let ghost all = texts_of(parts@);
        let ghost f = |token: Seq<char>| token_class(token);
        let mut r: Vec<WordClass> = Vec::new();
        let mut i: usize = 0;
        while i < parts.len()
            invariant
                i <= parts.len(),
                all == texts_of(parts@),
                f == |token: Seq<char>| token_class(token),
                r@ == all.take(i as int).filter_map(f),
            decreases parts.len() - i,
        {
            proof {
                all.lemma_filter_map_take_succ(f, i as int);
            }
            match WordClass::from_chars(&parts[i]) {
                Ok(class) => {
                    r.push(class);
                },
                Err(_) => {},
            }
            i += 1;
        }
        assert(all.take(parts.len() as int) =~= all);
        r
    }
}

} // verus!
