//! Field validation rules for stores, coupons and translated texts.
use vstd::prelude::*;

use validator::ValidateLength;
use vstd::string::StringSliceAdditionalSpecFns;

use crate::errors::FieldError;
use crate::text::chars_of;
use crate::translation::Translation;

verus! {

/// What `Regex::new(pattern)` followed by `is_match(haystack)` yields:
/// `None` when the pattern does not compile.
pub uninterp spec fn regex_match(pattern: Seq<char>, haystack: Seq<char>) -> Option<bool>;

/// Pattern of a phone number: an optional `+` and at least seven digits.
pub open spec fn phone_pattern() -> Seq<char> {
    "^\\+?\\d{7}\\d*$"@
}

/// Pattern of a slug: lower-case ASCII letters and digits in groups joined
/// by single dashes.
pub open spec fn slug_pattern() -> Seq<char> {
    "^[a-z0-9]+(?:-[a-z0-9]+)*$"@
}

/// Pattern of a coupon code: ASCII letters and digits only.
pub open spec fn code_pattern() -> Seq<char> {
    "^[a-zA-Z0-9]*$"@
}

/// An ASCII digit.
pub open spec fn is_ascii_digit(c: char) -> bool {
    '0' <= c && c <= '9'
}

/// An ASCII letter or digit.
pub open spec fn is_ascii_alnum(c: char) -> bool {
    is_ascii_digit(c) || ('a' <= c && c <= 'z') || ('A' <= c && c <= 'Z')
}

/// A character allowed in a slug group.
pub open spec fn is_slug_char(c: char) -> bool {
    is_ascii_digit(c) || ('a' <= c && c <= 'z')
}

/// Whether `s` is a slug: non-empty, made of lower-case ASCII letters,
/// digits and dashes, neither starting nor ending with a dash, without two
/// dashes in a row.
pub open spec fn is_slug(s: Seq<char>) -> bool {
    &&& s.len() > 0
    &&& forall|i: int| 0 <= i < s.len() ==> is_slug_char(#[trigger] s[i]) || s[i] == '-'
    &&& s[0] != '-'
    &&& s[s.len() - 1] != '-'
    &&& forall|i: int| 0 <= i < s.len() - 1 && #[trigger] s[i] == '-' ==> s[i + 1] != '-'
}

/// Whether an ASCII text is a phone number: an optional leading `+`, then at
/// least seven digits and nothing else.
pub open spec fn is_ascii_phone(s: Seq<char>) -> bool {
    let digits = if s.len() > 0 && s[0] == '+' {
        s.drop_first()
    } else {
        s
    };
    digits.len() >= 7 && forall|i: int| 0 <= i < digits.len() ==> is_ascii_digit(#[trigger] digits[i])
}

/// Whether every character of `s` is an ASCII letter or digit.
pub open spec fn is_ascii_alnum_text(s: Seq<char>) -> bool {
    forall|i: int| 0 <= i < s.len() ==> is_ascii_alnum(#[trigger] s[i])
}

/// Whether every character of `s` is ASCII.
pub open spec fn is_ascii_text(s: Seq<char>) -> bool {
    forall|i: int| 0 <= i < s.len() ==> (#[trigger] s[i]) as u32 <= 0x7f
}

/// Compiles `pattern` with `regex::Regex::new` and tests `haystack` with
/// `Regex::is_match`; `None` when the pattern does not compile. Beyond naming
/// the result, the contract states what the regex crate's documented syntax
/// gives for the three patterns this library uses: the slug and code
/// patterns are ASCII classes, so their result is stated for every text; the
/// phone pattern uses `\d`, which matches every Unicode decimal digit, so its
/// result is stated only for ASCII texts.
#[verifier::external_body]
fn regex_is_match(pattern: &str, haystack: &str) -> (r: Option<bool>)
    ensures
        r == regex_match(pattern@, haystack@),
        pattern@ == slug_pattern() ==> r == Some(is_slug(haystack@)),
        pattern@ == code_pattern() ==> r == Some(is_ascii_alnum_text(haystack@)),
        pattern@ == phone_pattern() ==> r is Some,
        pattern@ == phone_pattern() && is_ascii_text(haystack@) ==> r == Some(is_ascii_phone(haystack@)),
{
    match regex::Regex::new(pattern) {
        Ok(re) => Some(re.is_match(haystack)),
        Err(_) => None,
    }
}

/// What `isolang::Language::from_639_1(code)` decides: whether `code` is a
/// known two-letter ISO 639-1 language code.
pub uninterp spec fn iso_639_1_known(code: Seq<char>) -> bool;

/// Whether `isolang::Language::from_639_1` knows `code`. Beyond naming the
/// result, the contract states what the crate's source shows first: codes
/// whose UTF-8 form is not two bytes long are refused.
#[verifier::external_body]
fn iso_639_1_lookup(code: &str) -> (r: bool)
    ensures
        r == iso_639_1_known(code@),
        code.spec_bytes().len() != 2 ==> !r,
{
    isolang::Language::from_639_1(code).is_some()
}

/// A Unicode `White_Space` character, the characters that `str::trim`
/// strips from both ends of a text.
pub open spec fn is_white_space(c: char) -> bool {
    let n = c as u32;
    (0x9 <= n && n <= 0xD) || n == 0x20 || n == 0x85 || n == 0xA0 || n == 0x1680 || (0x2000 <= n && n <= 0x200A)
        || n == 0x2028 || n == 0x2029 || n == 0x202F || n == 0x205F || n == 0x3000
}

/// Whether `c` is a Unicode `White_Space` character.
fn white_space(c: char) -> (r: bool)
    ensures
        r == is_white_space(c),
{
    let n = c as u32;
    (0x9 <= n && n <= 0xD) || n == 0x20 || n == 0x85 || n == 0xA0 || n == 0x1680 || (0x2000 <= n && n <= 0x200A)
        || n == 0x2028 || n == 0x2029 || n == 0x202F || n == 0x205F || n == 0x3000
}

/// Whether `s` has a character other than white space, that is, whether
/// trimming it leaves something.
pub open spec fn has_content(s: Seq<char>) -> bool {
    exists|i: int| 0 <= i < s.len() && !is_white_space(#[trigger] s[i])
}

/// Whether the number of characters of `s` lies in `[min, max]`, as
/// `validator::ValidateLength::validate_length` decides it for strings with
/// both bounds given (the crate counts `chars()`).
#[verifier::external_body]
fn length_within(s: &str, min: u64, max: u64) -> (r: bool)
    ensures
        r == (min <= s@.len() && s@.len() <= max),
{
    s.validate_length(Some(min), Some(max), None)
}

/// Accepts a phone number: an optional `+` and at least seven digits.
pub fn validate_phone(phone: &str) -> (r: Result<(), FieldError>)
    ensures
        r is Ok <==> regex_match(phone_pattern(), phone@) == Some(true),
        is_ascii_text(phone@) ==> (r is Ok <==> is_ascii_phone(phone@)),
        r matches Err(e) ==> e.code@ == "phone"@ && e.message@ == "Incorrect phone format"@,
{
    if regex_is_match("^\\+?\\d{7}\\d*$", phone) == Some(true) {
        Ok(())
    } else {
        Err(FieldError::new("phone", "Incorrect phone format"))
    }
}

/// Accepts a slug: lower-case ASCII letters and digits in groups joined by
/// single dashes.
pub fn validate_slug(val: &str) -> (r: Result<(), FieldError>)
    ensures
        r is Ok <==> is_slug(val@),
        r matches Err(e) ==> e.code@ == "slug"@ && e.message@ == "Incorrect slug format"@,
{
    if regex_is_match("^[a-z0-9]+(?:-[a-z0-9]+)*$", val) == Some(true) {
        Ok(())
    } else {
        Err(FieldError::new("slug", "Incorrect slug format"))
    }
}

/// Accepts a two-letter ISO 639-1 language code.
pub fn validate_lang(lang: &str) -> (r: Result<(), FieldError>)
    ensures
        r is Ok <==> iso_639_1_known(lang@),
        r matches Err(e) ==> e.code@ == "language"@ && e.message@ == "Value must be ISO 639-1 format."@,
{
    if iso_639_1_lookup(lang) {
        Ok(())
    } else {
        Err(FieldError::new("language", "Value must be ISO 639-1 format."))
    }
}

/// Accepts a text that is not blank: one that keeps a character once
/// white space is trimmed from both ends.
pub fn validate_not_empty(val: &str) -> (r: Result<(), FieldError>)
    ensures
        r is Ok <==> has_content(val@),
        r matches Err(e) ==> e.code@ == "value"@ && e.message@ == "Value must not be empty."@,
{
    let chars = chars_of(val);
    for i in 0..chars.len()
        invariant
            chars@ == val@,
            forall|j: int| 0 <= j < i ==> is_white_space(#[trigger] val@[j]),
    {
        if !white_space(chars[i]) {
            assert(!is_white_space(val@[i as int]));
            return Ok(());
        }
    }
    Err(FieldError::new("value", "Value must not be empty."))
}

/// Accepts a coupon quantity above zero.
pub fn validate_non_negative_coupon_quantity(value: i32) -> (r: Result<(), FieldError>)
    ensures
        r is Ok <==> value > 0,
        r matches Err(e) ==> e.code@ == "value"@ && e.message@ == "Value must be non negative."@,
{
    if value > 0 {
        Ok(())
    } else {
        Err(FieldError::new("value", "Value must be non negative."))
    }
}

/// A coupon's code.
#[derive(Debug, PartialEq, Eq)]
pub struct CouponCode(pub String);

/// Fewest characters a coupon code may have.
pub const MIN_LENGTH_CODE: u64 = 4;

/// Most characters a coupon code may have.
pub const MAX_LENGTH_CODE: u64 = 12;

/// Accepts a coupon code of 4 to 12 ASCII letters and digits.
pub fn validate_coupon_code(val: &CouponCode) -> (r: Result<(), FieldError>)
    ensures
        r is Ok <==> MIN_LENGTH_CODE <= val.0@.len() <= MAX_LENGTH_CODE && is_ascii_alnum_text(val.0@),
        r matches Err(e) ==> e.code@ == "code"@ && if MIN_LENGTH_CODE <= val.0@.len() <= MAX_LENGTH_CODE {
            e.message@ == "Incorrect code format. Must be only (a-z,A-Z,0-9)"@
        } else {
            e.message@ == "Value must be >= 4 and <= 12 characters."@
        },
{
    if length_within(val.0.as_str(), MIN_LENGTH_CODE, MAX_LENGTH_CODE) {
        if regex_is_match("^[a-zA-Z0-9]*$", val.0.as_str()) == Some(true) {
            Ok(())
        } else {
            Err(FieldError::new("code", "Incorrect code format. Must be only (a-z,A-Z,0-9)"))
        }
    } else {
        Err(FieldError::new("code", "Value must be >= 4 and <= 12 characters."))
    }
}

/// Most bytes the text of a store's short description may take.
pub const MAX_LENGTH_SHORT_DESCRIPTION: u64 = 170;

/// The error for a text that is not a JSON list of translations.
pub open spec fn is_translation_format_error(e: FieldError) -> bool {
    e.code@ == "text"@ && e.message@ == "Invalid json format of text with translation."@
}

/// Number of bytes of the UTF-8 encoding of `s`, as `str::len` reports it.
pub open spec fn utf8_len(s: Seq<char>) -> usize {
    vstd::utf8::encode_utf8(s).len() as usize
}

/// Whether every translation has a non-empty text.
pub open spec fn texts_not_empty(ts: Seq<Translation>) -> bool {
    forall|i: int| 0 <= i < ts.len() ==> (#[trigger] ts[i]).text@.len() > 0
}

/// Whether every translation's text takes at most
/// [`MAX_LENGTH_SHORT_DESCRIPTION`] bytes.
pub open spec fn texts_short(ts: Seq<Translation>) -> bool {
    forall|i: int| 0 <= i < ts.len() ==> utf8_len((#[trigger] ts[i]).text@) <= MAX_LENGTH_SHORT_DESCRIPTION
}

/// Accepts a translated text whose translations are all non-empty.
/// `translations` is the text read as a list of translations, `None` when it
/// is not one.
pub fn validate_translation(translations: Option<&Vec<Translation>>) -> (r: Result<(), FieldError>)
    ensures
        translations is None ==> (r matches Err(e) && is_translation_format_error(e)),
        translations matches Some(ts) ==> (r is Ok <==> texts_not_empty(ts@)),
        translations is Some ==> (r matches Err(e) ==> e.code@ == "text"@ && e.message@
            == "Text inside translation must not be empty."@),
{
    match translations {
        None => Err(FieldError::new("text", "Invalid json format of text with translation.")),
        Some(ts) => {
            let n = ts.len();
            let mut i: usize = 0;
            while i < n
                invariant
                    translations == Some(ts),
                    n == ts@.len(),
                    i <= n,
                    forall|j: int| 0 <= j < i ==> (#[trigger] ts@[j]).text@.len() > 0,
                decreases n - i,
            {
                if ts[i].text.as_str().is_empty() {
                    return Err(FieldError::new("text", "Text inside translation must not be empty."));
                }
                i = i + 1;
            }
            Ok(())
        },
    }
}

/// Accepts a store's short description: translations all non-empty and at
/// most 170 bytes long. `translations` is the text read as a list of
/// translations, `None` when it is not one.
pub fn validate_store_short_description(translations: Option<&Vec<Translation>>) -> (r: Result<(), FieldError>)
    ensures
        translations is None ==> (r matches Err(e) && is_translation_format_error(e)),
        translations matches Some(ts) ==> (r is Ok <==> texts_not_empty(ts@) && texts_short(ts@)),
        translations matches Some(ts) ==> (r matches Err(e) ==> e.code@ == "text"@ && if texts_not_empty(ts@) {
            e.message@ == "Text inside translation must be <= 170 characters."@
        } else {
            e.message@ == "Text inside translation must not be empty."@
        }),
{
    let checked = validate_translation(translations);
    if checked.is_err() {
        return checked;
    }
    match translations {
        None => Err(FieldError::new("text", "Invalid json format of text with translation.")),
        Some(ts) => {
            let n = ts.len();
            let mut i: usize = 0;
            while i < n
                invariant
                    translations == Some(ts),
                    n == ts@.len(),
                    i <= n,
                    forall|j: int| 0 <= j < n ==> (#[trigger] ts@[j]).text@.len() > 0,
                    forall|j: int|
                        0 <= j < i ==> utf8_len((#[trigger] ts@[j]).text@) <= MAX_LENGTH_SHORT_DESCRIPTION,
                decreases n - i,
            {
                if ts[i].text.as_str().len() as u64 > MAX_LENGTH_SHORT_DESCRIPTION {
                    return Err(FieldError::new("text", "Text inside translation must be <= 170 characters."));
                }
                i = i + 1;
            }
            Ok(())
        },
    }
}

/// Accepts a list of URLs. `urls` is the value read as a list of strings,
/// `None` when it is not one.
pub fn validate_urls(urls: Option<&Vec<String>>) -> (r: Result<(), FieldError>)
    ensures
        r is Ok <==> urls is Some,
        r matches Err(e) ==> e.code@ == "urls"@ && e.message@
            == "Invalid format of urls. Must be json array of strings."@,
{
    match urls {
        Some(_) => Ok(()),
        None => Err(FieldError::new("urls", "Invalid format of urls. Must be json array of strings.")),
    }
}

} // verus!
