use stores::errors::FieldError;
use stores::translation::{Language, Translation};
use stores::validation_rules::{
    validate_coupon_code, validate_lang, validate_non_negative_coupon_quantity, validate_not_empty, validate_phone,
    validate_slug, validate_store_short_description, validate_translation, validate_urls, CouponCode,
    MAX_LENGTH_CODE, MAX_LENGTH_SHORT_DESCRIPTION, MIN_LENGTH_CODE,
};

fn err(code: &str, message: &str) -> Result<(), FieldError> {
    Err(FieldError { code: code.to_string(), message: message.to_string() })
}

#[test]
fn phone_numbers() {
    assert_eq!(validate_phone("1234567"), Ok(()));
    assert_eq!(validate_phone("+79991234567"), Ok(()));
    assert_eq!(validate_phone("123456"), err("phone", "Incorrect phone format"));
    assert_eq!(validate_phone("+123456"), err("phone", "Incorrect phone format"));
    assert_eq!(validate_phone("12345a7"), err("phone", "Incorrect phone format"));
    assert_eq!(validate_phone("++1234567"), err("phone", "Incorrect phone format"));
    assert_eq!(validate_phone(""), err("phone", "Incorrect phone format"));
}

#[test]
fn slugs() {
    assert_eq!(validate_slug("myname"), Ok(()));
    assert_eq!(validate_slug("my-name-2"), Ok(()));
    assert_eq!(validate_slug("a"), Ok(()));
    assert_eq!(validate_slug(""), err("slug", "Incorrect slug format"));
    assert_eq!(validate_slug("-name"), err("slug", "Incorrect slug format"));
    assert_eq!(validate_slug("name-"), err("slug", "Incorrect slug format"));
    assert_eq!(validate_slug("my--name"), err("slug", "Incorrect slug format"));
    assert_eq!(validate_slug("MyName"), err("slug", "Incorrect slug format"));
    assert_eq!(validate_slug("my_name"), err("slug", "Incorrect slug format"));
}

#[test]
fn languages() {
    assert_eq!(validate_lang("en"), Ok(()));
    assert_eq!(validate_lang("ru"), Ok(()));
    assert_eq!(validate_lang("xx"), err("language", "Value must be ISO 639-1 format."));
    assert_eq!(validate_lang("eng"), err("language", "Value must be ISO 639-1 format."));
    assert_eq!(validate_lang(""), err("language", "Value must be ISO 639-1 format."));
}

#[test]
fn blank_texts() {
    assert_eq!(validate_not_empty("shop"), Ok(()));
    assert_eq!(validate_not_empty("  shop "), Ok(()));
    assert_eq!(validate_not_empty(""), err("value", "Value must not be empty."));
    assert_eq!(validate_not_empty(" \t\n "), err("value", "Value must not be empty."));
    assert_eq!(validate_not_empty("\u{2003}"), err("value", "Value must not be empty."));
}

#[test]
fn coupon_quantities() {
    assert_eq!(validate_non_negative_coupon_quantity(1), Ok(()));
    assert_eq!(validate_non_negative_coupon_quantity(100), Ok(()));
    assert_eq!(validate_non_negative_coupon_quantity(0), err("value", "Value must be non negative."));
    assert_eq!(validate_non_negative_coupon_quantity(-1), err("value", "Value must be non negative."));
}

#[test]
fn coupon_codes() {
    assert_eq!(MIN_LENGTH_CODE, 4);
    assert_eq!(MAX_LENGTH_CODE, 12);
    let length = "Value must be >= 4 and <= 12 characters.";
    let format = "Incorrect code format. Must be only (a-z,A-Z,0-9)";
    assert_eq!(validate_coupon_code(&CouponCode("abCD".to_string())), Ok(()));
    assert_eq!(validate_coupon_code(&CouponCode("A1b2C3d4E5f6".to_string())), Ok(()));
    assert_eq!(validate_coupon_code(&CouponCode("abc".to_string())), err("code", length));
    assert_eq!(validate_coupon_code(&CouponCode("A1b2C3d4E5f6g".to_string())), err("code", length));
    assert_eq!(validate_coupon_code(&CouponCode("ab-cd".to_string())), err("code", format));
    assert_eq!(validate_coupon_code(&CouponCode("абвгд".to_string())), err("code", format));
    // Lengths count characters, not bytes: twelve two-byte letters are not too long.
    assert_eq!(validate_coupon_code(&CouponCode("ääääääääääää".to_string())), err("code", format));
}

fn tr(lang: Language, text: &str) -> Translation {
    Translation::new(lang, text.to_string())
}

#[test]
fn translations() {
    let ok = vec![tr(Language::En, "shop"), tr(Language::Ru, "магазин")];
    assert_eq!(validate_translation(Some(&ok)), Ok(()));
    assert_eq!(validate_translation(Some(&vec![])), Ok(()));
    let empty = vec![tr(Language::En, "shop"), tr(Language::De, "")];
    assert_eq!(validate_translation(Some(&empty)), err("text", "Text inside translation must not be empty."));
    assert_eq!(validate_translation(None), err("text", "Invalid json format of text with translation."));
}

#[test]
fn short_descriptions() {
    assert_eq!(MAX_LENGTH_SHORT_DESCRIPTION, 170);
    let long = "a".repeat(171);
    let limit = "a".repeat(170);
    // 85 two-byte letters take 170 bytes; 86 take 172.
    let cyr_ok = "ж".repeat(85);
    let cyr_long = "ж".repeat(86);
    assert_eq!(validate_store_short_description(Some(&vec![tr(Language::En, &limit)])), Ok(()));
    assert_eq!(validate_store_short_description(Some(&vec![tr(Language::Ru, &cyr_ok)])), Ok(()));
    assert_eq!(
        validate_store_short_description(Some(&vec![tr(Language::En, &long)])),
        err("text", "Text inside translation must be <= 170 characters.")
    );
    assert_eq!(
        validate_store_short_description(Some(&vec![tr(Language::Ru, &cyr_long)])),
        err("text", "Text inside translation must be <= 170 characters.")
    );
    assert_eq!(
        validate_store_short_description(Some(&vec![tr(Language::En, &long), tr(Language::Ru, "")])),
        err("text", "Text inside translation must not be empty.")
    );
    assert_eq!(
        validate_store_short_description(None),
        err("text", "Invalid json format of text with translation.")
    );
}

#[test]
fn urls() {
    assert_eq!(validate_urls(Some(&vec!["https://a.example".to_string()])), Ok(()));
    assert_eq!(validate_urls(Some(&vec![])), Ok(()));
    assert_eq!(validate_urls(None), err("urls", "Invalid format of urls. Must be json array of strings."));
}

#[test]
fn blank_texts_of_every_white_space() {
    for ws in ["\u{85}", "\u{a0}", "\u{1680}", "\u{2000}", "\u{200a}", "\u{2028}", "\u{2029}", "\u{202f}", "\u{205f}", "\u{3000}", "\u{b}\u{c}\r"] {
        assert_eq!(validate_not_empty(ws), err("value", "Value must not be empty."));
        assert_eq!(ws.trim(), "");
    }
    // Zero-width space is not white space.
    assert_eq!(validate_not_empty("\u{200b}"), Ok(()));
    assert_eq!(validate_not_empty(" x "), Ok(()));
}
