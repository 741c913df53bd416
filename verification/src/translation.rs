//! Languages of translated texts and a translated text itself.
use vstd::prelude::*;

use crate::errors::FieldError;
use crate::text::str_equals;

verus! {

/// A language a text can be translated into.
#[derive(Debug, PartialEq, Eq, Structural, Clone, Copy)]
pub enum Language {
    En,
    Ch,
    De,
    Ru,
    Es,
    Fr,
    Ko,
    Po,
    Ja,
}

/// The two-letter code of each language.
pub open spec fn language_code(l: Language) -> Seq<char> {
    match l {
        Language::En => "en"@,
        Language::Ch => "ch"@,
        Language::De => "de"@,
        Language::Ru => "ru"@,
        Language::Es => "es"@,
        Language::Fr => "fr"@,
        Language::Ko => "ko"@,
        Language::Po => "po"@,
        Language::Ja => "ja"@,
    }
}

/// The language whose code is `s`, if any.
pub open spec fn language_of_code(s: Seq<char>) -> Option<Language> {
    if s == "en"@ {
        Some(Language::En)
    } else if s == "ch"@ {
        Some(Language::Ch)
    } else if s == "de"@ {
        Some(Language::De)
    } else if s == "ru"@ {
        Some(Language::Ru)
    } else if s == "es"@ {
        Some(Language::Es)
    } else if s == "fr"@ {
        Some(Language::Fr)
    } else if s == "ko"@ {
        Some(Language::Ko)
    } else if s == "po"@ {
        Some(Language::Po)
    } else if s == "ja"@ {
        Some(Language::Ja)
    } else {
        None
    }
}

impl Language {
    /// The language's two-letter code.
    pub fn to_string(&self) -> (s: String)
        ensures
            s@ == language_code(*self),
    {
        match self {
            Language::En => "en".to_owned(),
            Language::Ch => "ch".to_owned(),
            Language::De => "de".to_owned(),
            Language::Ru => "ru".to_owned(),
            Language::Es => "es".to_owned(),
            Language::Fr => "fr".to_owned(),
            Language::Ko => "ko".to_owned(),
            Language::Po => "po".to_owned(),
            Language::Ja => "ja".to_owned(),
        }
    }

    /// Parses a two-letter language code; any other text is refused with the
    /// `language` error.
    pub fn from_str(s: &str) -> (res: Result<Language, FieldError>)
        ensures
            match language_of_code(s@) {
                Some(l) => res == Ok::<Language, FieldError>(l),
                None => res matches Err(e) && e.code@ == "language"@
                    && e.message@ == "Invalid language format. Language name must be ISO 639-1 format."@,
            },
    {
        if str_equals(s, "en") {
            Ok(Language::En)
        } else if str_equals(s, "ch") {
            Ok(Language::Ch)
        } else if str_equals(s, "de") {
            Ok(Language::De)
        } else if str_equals(s, "ru") {
            Ok(Language::Ru)
        } else if str_equals(s, "es") {
            Ok(Language::Es)
        } else if str_equals(s, "fr") {
            Ok(Language::Fr)
        } else if str_equals(s, "ko") {
            Ok(Language::Ko)
        } else if str_equals(s, "po") {
            Ok(Language::Po)
        } else if str_equals(s, "ja") {
            Ok(Language::Ja)
        } else {
            Err(FieldError::new("language", "Invalid language format. Language name must be ISO 639-1 format."))
        }
    }
}

proof fn lemma_language_code_injective(l: Language, m: Language)
    ensures
        language_code(l) == language_code(m) ==> l == m,
{
    reveal_strlit("en");
    reveal_strlit("ch");
    reveal_strlit("de");
    reveal_strlit("ru");
    reveal_strlit("es");
    reveal_strlit("fr");
    reveal_strlit("ko");
    reveal_strlit("po");
    reveal_strlit("ja");
    if language_code(l) == language_code(m) {
        assert(language_code(l)[0] == language_code(m)[0]);
        assert(language_code(l)[1] == language_code(m)[1]);
    }
}

/// Parsing a language's code gives the language back, and distinct languages
/// have distinct codes.
pub proof fn lemma_language_code_roundtrip(l: Language, m: Language)
    ensures
        language_of_code(language_code(l)) == Some(l),
        language_code(l) == language_code(m) ==> l == m,
{
    lemma_language_code_injective(l, m);
    lemma_language_code_injective(l, Language::En);
    lemma_language_code_injective(l, Language::Ch);
    lemma_language_code_injective(l, Language::De);
    lemma_language_code_injective(l, Language::Ru);
    lemma_language_code_injective(l, Language::Es);
    lemma_language_code_injective(l, Language::Fr);
    lemma_language_code_injective(l, Language::Ko);
    lemma_language_code_injective(l, Language::Po);
    lemma_language_code_injective(l, Language::Ja);
}

/// A text in one language.
#[derive(Debug, PartialEq, Eq)]
pub struct Translation {
    pub lang: Language,
    pub text: String,
}

impl Translation {
    /// A translation of `text` into `lang`.
    pub fn new(lang: Language, text: String) -> (t: Translation)
        ensures
            t.lang == lang,
            t.text == text,
    {
        Translation { lang, text }
    }
}

/// No translation into the default language (English) was given.
#[derive(Debug, PartialEq, Eq, Structural, Clone, Copy)]
pub struct MissingDefaultTranslation;

impl MissingDefaultTranslation {
    /// The human-readable message of the error.
    pub fn to_string(&self) -> (s: String)
        ensures
            s@ == "Default en language is missing in translations"@,
    {
        "Default en language is missing in translations".to_owned()
    }
}

/// The code of a translated value: the text of its first English
/// translation.
pub fn extract_code(translations: &Vec<Translation>) -> (r: Result<String, MissingDefaultTranslation>)
    ensures
        r is Ok <==> exists|i: int| 0 <= i < translations@.len() && (#[trigger] translations@[i]).lang == Language::En,
        r matches Ok(code) ==> exists|i: int|
            0 <= i < translations@.len() && (#[trigger] translations@[i]).lang == Language::En && code@
                == translations@[i].text@ && forall|j: int| 0 <= j < i ==> translations@[j].lang != Language::En,
{
    for i in 0..translations.len()
        invariant
            forall|j: int| 0 <= j < i ==> (#[trigger] translations@[j]).lang != Language::En,
    {
        if translations[i].lang == Language::En {
            let code = translations[i].text.clone();
            assert(translations@[i as int].lang == Language::En);
            return Ok(code);
        }
    }
    Err(MissingDefaultTranslation)
}

} // verus!
