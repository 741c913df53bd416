use stores::errors::FieldError;
use stores::status::{Status, StatusDecodeError};
use stores::translation::{extract_code, Language, MissingDefaultTranslation, Translation};
use stores::visibility::Visibility;

#[test]
fn status_bytes() {
    assert_eq!(Status::Draft.to_sql(), b"draft".to_vec());
    assert_eq!(Status::Moderation.to_sql(), b"moderation".to_vec());
    assert_eq!(Status::Decline.to_sql(), b"decline".to_vec());
    assert_eq!(Status::Published.to_sql(), b"published".to_vec());
}

#[test]
fn status_roundtrip() {
    for s in [Status::Draft, Status::Moderation, Status::Decline, Status::Published] {
        let bytes = s.to_sql();
        assert_eq!(Status::build_from_row(Some(&bytes)), Ok(s));
    }
}

#[test]
fn status_errors() {
    assert_eq!(Status::build_from_row(None), Err(StatusDecodeError::UnexpectedNull));
    assert_eq!(
        Status::build_from_row(Some(b"Draft")),
        Err(StatusDecodeError::Unrecognized(b"Draft".to_vec()))
    );
    assert_eq!(Status::build_from_row(Some(b"")), Err(StatusDecodeError::Unrecognized(vec![])));
}

#[test]
fn language_codes() {
    let all = [
        (Language::En, "en"),
        (Language::Ch, "ch"),
        (Language::De, "de"),
        (Language::Ru, "ru"),
        (Language::Es, "es"),
        (Language::Fr, "fr"),
        (Language::Ko, "ko"),
        (Language::Po, "po"),
        (Language::Ja, "ja"),
    ];
    for (lang, code) in all {
        assert_eq!(lang.to_string(), code);
        assert_eq!(Language::from_str(code), Ok(lang));
        assert_eq!(Language::from_str(&lang.to_string()), Ok(lang));
    }
}

#[test]
fn unknown_language() {
    let e = Err(FieldError {
        code: "language".to_string(),
        message: "Invalid language format. Language name must be ISO 639-1 format.".to_string(),
    });
    assert_eq!(Language::from_str("EN"), e);
    assert_eq!(Language::from_str("zh"), e);
    assert_eq!(Language::from_str(""), e);
}

#[test]
fn translation_new() {
    let t = Translation::new(Language::De, "Laden".to_string());
    assert_eq!(t.lang, Language::De);
    assert_eq!(t.text, "Laden");
}

#[test]
fn visibility_names() {
    assert_eq!(Visibility::from_str("active"), Ok(Visibility::Active));
    assert_eq!(Visibility::from_str("ACTIVE"), Ok(Visibility::Active));
    assert_eq!(Visibility::from_str("Published"), Ok(Visibility::Published));
    assert_eq!(Visibility::from_str("publish"), Err(()));
    assert_eq!(Visibility::from_str(""), Err(()));
}

#[test]
fn code_of_translated_value() {
    let ts = vec![
        Translation::new(Language::Ru, "красный".to_string()),
        Translation::new(Language::En, "red".to_string()),
        Translation::new(Language::En, "crimson".to_string()),
    ];
    assert_eq!(extract_code(&ts), Ok("red".to_string()));
    let ru = vec![Translation::new(Language::Ru, "красный".to_string())];
    assert_eq!(extract_code(&ru), Err(MissingDefaultTranslation));
    assert_eq!(extract_code(&vec![]), Err(MissingDefaultTranslation));
    assert_eq!(MissingDefaultTranslation.to_string(), "Default en language is missing in translations");
}
