//! The languages of a dictionary.

use vstd::prelude::*;
use crate::dict::query::QueryDirection;
use crate::error::{DictError, DictResult};
use crate::text::{chars_of, same_text, string_of, to_uppercase, uppercase};

verus! {

/// A language, by its two-letter code.
#[derive(Clone, Debug, PartialEq, Eq)]
pub enum Language {
    /// Albanian
    SQ,
    /// Bosnian
    BS,
    /// Bulgarian
    BG,
    /// Croatian
    HR,
    /// Czech
    CS,
    /// Danish
    DA,
    /// Dutch
    NL,
    /// English
    EN,
    /// Esperanto
    EO,
    /// Finnish
    FI,
    /// French
    FR,
    /// German
    DE,
    /// Greek
    EL,
    /// Hungarian
    HU,
    /// Icelandic
    IS,
    /// Italian
    IT,
    /// Latin
    LA,
    /// Norwegian
    NO,
    /// Polish
    PL,
    /// Portuguese
    PT,
    /// Romanian
    RO,
    /// Russian
    RU,
    /// Serbian
    SR,
    /// Slovak
    SK,
    /// Spanish
    ES,
    /// Swedish
    SV,
    /// Turkish
    TR,
    /// A language that is not listed.
    Other {
        /// The code of the language.
        language_code: String,
    },
}

/// The mathematical value of a `Language`: whether it is one of the listed
/// languages, and its code.
pub struct LanguageView {
    pub listed: bool,
    pub code: Seq<char>,
}

/// The listed language with the code `code`, if there is one.
pub open spec fn listed_language(code: Seq<char>) -> Option<Language> {
    if code == "SQ"@ {
        Some(Language::SQ)
    } else if code == "BS"@ {
        Some(Language::BS)
    } else if code == "BG"@ {
        Some(Language::BG)
    } else if code == "HR"@ {
        Some(Language::HR)
    } else if code == "CS"@ {
        Some(Language::CS)
    } else if code == "DA"@ {
        Some(Language::DA)
    } else if code == "NL"@ {
        Some(Language::NL)
    } else if code == "EN"@ {
        Some(Language::EN)
    } else if code == "EO"@ {
        Some(Language::EO)
    } else if code == "FI"@ {
        Some(Language::FI)
    } else if code == "FR"@ {
        Some(Language::FR)
    } else if code == "DE"@ {
        Some(Language::DE)
    } else if code == "EL"@ {
        Some(Language::EL)
    } else if code == "HU"@ {
        Some(Language::HU)
    } else if code == "IS"@ {
        Some(Language::IS)
    } else if code == "IT"@ {
        Some(Language::IT)
    } else if code == "LA"@ {
        Some(Language::LA)
    } else if code == "NO"@ {
        Some(Language::NO)
    } else if code == "PL"@ {
        Some(Language::PL)
    } else if code == "PT"@ {
        Some(Language::PT)
    } else if code == "RO"@ {
        Some(Language::RO)
    } else if code == "RU"@ {
        Some(Language::RU)
    } else if code == "SR"@ {
        Some(Language::SR)
    } else if code == "SK"@ {
        Some(Language::SK)
    } else if code == "ES"@ {
        Some(Language::ES)
    } else if code == "SV"@ {
        Some(Language::SV)
    } else if code == "TR"@ {
        Some(Language::TR)
    } else {
        None
    }
}

/// The language with the code `code`: the listed one where there is one,
/// and else another language with that code.
pub open spec fn language_view_of(code: Seq<char>) -> LanguageView {
    LanguageView { listed: listed_language(code) is Some, code }
}

impl View for Language {
    type V = LanguageView;

    open spec fn view(&self) -> LanguageView {
        LanguageView { listed: !(self is Other), code: self.code() }
    }
}

impl Language {
    /// The code of the language.
    pub open spec fn code(&self) -> Seq<char> {
        match self {
            Language::SQ => "SQ"@,
            Language::BS => "BS"@,
            Language::BG => "BG"@,
            Language::HR => "HR"@,
            Language::CS => "CS"@,
            Language::DA => "DA"@,
            Language::NL => "NL"@,
            Language::EN => "EN"@,
            Language::EO => "EO"@,
            Language::FI => "FI"@,
            Language::FR => "FR"@,
            Language::DE => "DE"@,
            Language::EL => "EL"@,
            Language::HU => "HU"@,
            Language::IS => "IS"@,
            Language::IT => "IT"@,
            Language::LA => "LA"@,
            Language::NO => "NO"@,
            Language::PL => "PL"@,
            Language::PT => "PT"@,
            Language::RO => "RO"@,
            Language::RU => "RU"@,
            Language::SR => "SR"@,
            Language::SK => "SK"@,
            Language::ES => "ES"@,
            Language::SV => "SV"@,
            Language::TR => "TR"@,
            Language::Other { language_code } => language_code@,
        }
    }

    /// The name of the language.
    pub open spec fn name(&self) -> Seq<char> {
        match self {
            Language::SQ => "Albanian"@,
            Language::BS => "Bosnian"@,
            Language::BG => "Bulgarian"@,
            Language::HR => "Croatioan"@,
            Language::CS => "Czech"@,
            Language::DA => "Danish"@,
            Language::NL => "Dutch"@,
            Language::EN => "English"@,
            Language::EO => "Esperanto"@,
            Language::FI => "Finnish"@,
            Language::FR => "French"@,
            Language::DE => "German"@,
            Language::EL => "Greek"@,
            Language::HU => "Hungarian"@,
            Language::IS => "Icelandic"@,
            Language::IT => "Italian"@,
            Language::LA => "Latin"@,
            Language::NO => "Norwegian"@,
            Language::PL => "Polish"@,
            Language::PT => "Portuguese"@,
            Language::RO => "Romanian"@,
            Language::RU => "Russian"@,
            Language::SR => "Serbian"@,
            Language::SK => "Slovak"@,
            Language::ES => "Spanish"@,
            Language::SV => "Swedish"@,
            Language::TR => "Turkish"@,
            Language::Other { language_code } => "Other Language: "@ + language_code@,
        }
    }

    /// The code of the language.
    pub fn language_code(&self) -> (r: String)
        ensures
            r@ == self.code(),
    {
        match self {
            Language::SQ => "SQ".to_owned(),
            Language::BS => "BS".to_owned(),
            Language::BG => "BG".to_owned(),
            Language::HR => "HR".to_owned(),
            Language::CS => "CS".to_owned(),
            Language::DA => "DA".to_owned(),
            Language::NL => "NL".to_owned(),
            Language::EN => "EN".to_owned(),
            Language::EO => "EO".to_owned(),
            Language::FI => "FI".to_owned(),
            Language::FR => "FR".to_owned(),
            Language::DE => "DE".to_owned(),
            Language::EL => "EL".to_owned(),
            Language::HU => "HU".to_owned(),
            Language::IS => "IS".to_owned(),
            Language::IT => "IT".to_owned(),
            Language::LA => "LA".to_owned(),
            Language::NO => "NO".to_owned(),
            Language::PL => "PL".to_owned(),
            Language::PT => "PT".to_owned(),
            Language::RO => "RO".to_owned(),
            Language::RU => "RU".to_owned(),
            Language::SR => "SR".to_owned(),
            Language::SK => "SK".to_owned(),
            Language::ES => "ES".to_owned(),
            Language::SV => "SV".to_owned(),
            Language::TR => "TR".to_owned(),
            Language::Other { language_code } => language_code.clone(),
        }
    }

    /// The name of the language, as it is shown to a reader.
    pub fn to_string(&self) -> (r: String)
        ensures
            r@ == self.name(),
    {
        match self {
            Language::SQ => "Albanian".to_owned(),
            Language::BS => "Bosnian".to_owned(),
            Language::BG => "Bulgarian".to_owned(),
            Language::HR => "Croatioan".to_owned(),
            Language::CS => "Czech".to_owned(),
            Language::DA => "Danish".to_owned(),
            Language::NL => "Dutch".to_owned(),
            Language::EN => "English".to_owned(),
            Language::EO => "Esperanto".to_owned(),
            Language::FI => "Finnish".to_owned(),
            Language::FR => "French".to_owned(),
            Language::DE => "German".to_owned(),
            Language::EL => "Greek".to_owned(),
            Language::HU => "Hungarian".to_owned(),
            Language::IS => "Icelandic".to_owned(),
            Language::IT => "Italian".to_owned(),
            Language::LA => "Latin".to_owned(),
            Language::NO => "Norwegian".to_owned(),
            Language::PL => "Polish".to_owned(),
            Language::PT => "Portuguese".to_owned(),
            Language::RO => "Romanian".to_owned(),
            Language::RU => "Russian".to_owned(),
            Language::SR => "Serbian".to_owned(),
            Language::SK => "Slovak".to_owned(),
            Language::ES => "Spanish".to_owned(),
            Language::SV => "Swedish".to_owned(),
            Language::TR => "Turkish".to_owned(),
            Language::Other { language_code } => {
                let mut r = "Other Language: ".to_owned();
                vstd::string::StringExecFns::append(&mut r, language_code.as_str());
                r
            },
        }
    }

    /// Whether the language is one of the listed languages.
    pub fn is_listed(&self) -> (r: bool)
        ensures
            r == self@.listed,
    {
        match self {
            Language::Other { .. } => false,
            _ => true,
        }
    }

    /// Whether two languages are the same.
    pub fn same(&self, other: &Language) -> (r: bool)
        ensures
            r == (self@ == other@),
    {
        let a = self.language_code();
        let b = other.language_code();
        self.is_listed() == other.is_listed() && same_text(a.as_str(), b.as_str())
    }

    /// A copy of the language.
    pub fn duplicate(&self) -> (r: Language)
        ensures
            r@ == self@,
    {
        match self {
            Language::SQ => Language::SQ,
            Language::BS => Language::BS,
            Language::BG => Language::BG,
            Language::HR => Language::HR,
            Language::CS => Language::CS,
            Language::DA => Language::DA,
            Language::NL => Language::NL,
            Language::EN => Language::EN,
            Language::EO => Language::EO,
            Language::FI => Language::FI,
            Language::FR => Language::FR,
            Language::DE => Language::DE,
            Language::EL => Language::EL,
            Language::HU => Language::HU,
            Language::IS => Language::IS,
            Language::IT => Language::IT,
            Language::LA => Language::LA,
            Language::NO => Language::NO,
            Language::PL => Language::PL,
            Language::PT => Language::PT,
            Language::RO => Language::RO,
            Language::RU => Language::RU,
            Language::SR => Language::SR,
            Language::SK => Language::SK,
            Language::ES => Language::ES,
            Language::SV => Language::SV,
            Language::TR => Language::TR,
            Language::Other { language_code } => Language::Other {
                language_code: language_code.clone(),
            },
        }
    }

    /// The language with the code `code`, which is taken as it is written:
    /// the listed language where the code is that of one, and else another
    /// language with that code.
    pub fn from_code(code: &str) -> (r: Language)
        ensures
            r@ == language_view_of(code@),
            listed_language(code@) matches Some(l) ==> r == l,
    {
        if same_text(code, "SQ") {
            Language::SQ
        } else if same_text(code, "BS") {
            Language::BS
        } else if same_text(code, "BG") {
            Language::BG
        } else if same_text(code, "HR") {
            Language::HR
        } else if same_text(code, "CS") {
            Language::CS
        } else if same_text(code, "DA") {
            Language::DA
        } else if same_text(code, "NL") {
            Language::NL
        } else if same_text(code, "EN") {
            Language::EN
        } else if same_text(code, "EO") {
            Language::EO
        } else if same_text(code, "FI") {
            Language::FI
        } else if same_text(code, "FR") {
            Language::FR
        } else if same_text(code, "DE") {
            Language::DE
        } else if same_text(code, "EL") {
            Language::EL
        } else if same_text(code, "HU") {
            Language::HU
        } else if same_text(code, "IS") {
            Language::IS
        } else if same_text(code, "IT") {
            Language::IT
        } else if same_text(code, "LA") {
            Language::LA
        } else if same_text(code, "NO") {
            Language::NO
        } else if same_text(code, "PL") {
            Language::PL
        } else if same_text(code, "PT") {
            Language::PT
        } else if same_text(code, "RO") {
            Language::RO
        } else if same_text(code, "RU") {
            Language::RU
        } else if same_text(code, "SR") {
            Language::SR
        } else if same_text(code, "SK") {
            Language::SK
        } else if same_text(code, "ES") {
            Language::ES
        } else if same_text(code, "SV") {
            Language::SV
        } else if same_text(code, "TR") {
            Language::TR
        } else {
            Language::Other { language_code: code.to_owned() }
        }
    }

    /// The language with the code `s`, in upper or lower case.
    ///
    /// Fails with `InvalidLanguageCode` where `s` does not have two
    /// characters.
    pub fn from_str(s: &str) -> (r: DictResult<Language>)
        ensures
            match r {
                Ok(language) => s@.len() == 2 && language@ == language_view_of(uppercase(s@)),
                Err(DictError::InvalidLanguageCode { lang }) => s@.len() != 2 && lang@ == s@,
                Err(_) => false,
            },
    {
        if s.unicode_len() != 2 {
            return Err(DictError::InvalidLanguageCode { lang: s.to_owned() });
        }
        let upper = to_uppercase(s);
        Ok(Language::from_code(upper.as_str()))
    }
}

/// The two languages of a dictionary file.
#[derive(Clone, Debug, PartialEq, Eq)]
pub struct DictLanguagePair {
    /// The language of the left column.
    pub left_language: Language,
    /// The language of the right column.
    pub right_language: Language,
}

/// The mathematical value of a `DictLanguagePair`.
pub struct LanguagePairView {
    pub left: LanguageView,
    pub right: LanguageView,
}

impl View for DictLanguagePair {
    type V = LanguagePairView;

    open spec fn view(&self) -> LanguagePairView {
        LanguagePairView { left: self.left_language@, right: self.right_language@ }
    }
}

/// Whether `c` is one of the capital letters `A` to `Z`.
pub open spec fn is_capital(c: char) -> bool {
    'A' <= c && c <= 'Z'
}

/// Whether a pair of language codes stands at `i`: two capital letters, a
/// hyphen, and two capital letters.
pub open spec fn pair_at(s: Seq<char>, i: int) -> bool {
    &&& 0 <= i && i + 4 < s.len()
    &&& is_capital(s[i]) && is_capital(s[i + 1])
    &&& s[i + 2] == '-'
    &&& is_capital(s[i + 3]) && is_capital(s[i + 4])
}

/// The first position at or after `i` where a pair of language codes
/// stands, or the length of `s` where there is none.
pub open spec fn first_pair(s: Seq<char>, i: int) -> int
    decreases s.len() - i,
{
    if i < 0 || i >= s.len() {
        s.len() as int
    } else if pair_at(s, i) {
        i
    } else {
        first_pair(s, i + 1)
    }
}

/// The pair of languages that a header names: the first pair of codes in
/// it, if it holds one.
pub open spec fn header_languages(header: Seq<char>) -> Option<LanguagePairView> {
    let i = first_pair(header, 0);
    if i < header.len() {
        Some(
            LanguagePairView {
                left: language_view_of(header.subrange(i, i + 2)),
                right: language_view_of(header.subrange(i + 3, i + 5)),
            },
        )
    } else {
        None
    }
}

/// Whether `c` is one of the capital letters `A` to `Z`.
fn capital(c: char) -> (r: bool)
    ensures
        r == is_capital(c),
{
    'A' <= c && c <= 'Z'
}

impl DictLanguagePair {
    /// The pair as it is written in the name of a table: the two codes with
    /// an underscore between them.
    pub open spec fn name(&self) -> Seq<char> {
        self.left_language.code() + seq!['_'] + self.right_language.code()
    }

    /// The pair as it is written in the name of a table: the two codes with
    /// an underscore between them.
    pub fn to_string(&self) -> (r: String)
        ensures
            r@ == self.name(),
    {
        let mut r = self.left_language.language_code();
        r.push('_');
        let right = self.right_language.language_code();
        vstd::string::StringExecFns::append(&mut r, right.as_str());
        assert(r@ =~= self.name());
        r
    }

    /// A copy of the pair.
    pub fn duplicate(&self) -> (r: DictLanguagePair)
        ensures
            r@ == self@,
    {
        DictLanguagePair {
            left_language: self.left_language.duplicate(),
            right_language: self.right_language.duplicate(),
        }
    }

    /// The direction of a query that is written in `source_language`: to the
    /// right where that is the left language, else to the left where it is
    /// the right one.
    ///
    /// Fails with `InvalidSourceLanguage` where it is neither.
    pub fn infer_query_direction(&self, source_language: &Language) -> (r: DictResult<
        QueryDirection,
    >)
        ensures
            match r {
                Ok(QueryDirection::ToRight) => source_language@ == self@.left,
                Ok(QueryDirection::ToLeft) => source_language@ != self@.left && source_language@
                    == self@.right,
                Ok(QueryDirection::Bidirectional) => false,
                Err(DictError::InvalidSourceLanguage { source_language: given }) => {
                    &&& source_language@ != self@.left
                    &&& source_language@ != self@.right
                    &&& given@ == source_language@
                },
                Err(_) => false,
            },
    {
        if source_language.same(&self.left_language) {
            Ok(QueryDirection::ToRight)
        } else if source_language.same(&self.right_language) {
            Ok(QueryDirection::ToLeft)
        } else {
            Err(DictError::InvalidSourceLanguage { source_language: source_language.duplicate() })
        }
    }

    /// The pair of languages that the header of a dictionary file names: the
    /// first place in it where two capital letters, a hyphen and two capital
    /// letters stand gives the codes of the left and of the right language.
    ///
    /// Fails with `LanguageCodeNotFound` where there is no such place.
    pub fn from_header(header: &str) -> (r: DictResult<DictLanguagePair>)
        ensures
            match r {
                Ok(pair) => header_languages(header@) == Some(pair@),
                Err(DictError::LanguageCodeNotFound) => header_languages(header@) is None,
                Err(_) => false,
            },
    {
        let cs = chars_of(header);
        let mut i: usize = 0;
        while i < cs.len()
            invariant
                i <= cs.len(),
                cs@ == header@,
                first_pair(cs@, 0) == first_pair(cs@, i as int),
            decreases cs.len() - i,
        {
            if cs.len() - i > 4 && capital(cs[i]) && capital(cs[i + 1]) && cs[i + 2] == '-'
                && capital(cs[i + 3]) && capital(cs[i + 4]) {
                assert(pair_at(cs@, i as int));
                let left = string_of(&cs, i, i + 2);
                let right = string_of(&cs, i + 3, i + 5);
                return Ok(
                    DictLanguagePair {
                        left_language: Language::from_code(left.as_str()),
                        right_language: Language::from_code(right.as_str()),
                    },
                );
            }
            i += 1;
        }
        Err(DictError::LanguageCodeNotFound)
    }
}

} // verus!
