//! Trusted boundary to the outside crates and to the parts of std that vstd
//! does not specify.
//!
//! Each wrapper names, in its doc comment, the outside function it relies on
//! and what its contract assumes of it. Results that are functions of the
//! arguments alone but too intricate to state are given uninterpreted names;
//! the verified pipeline reasons about those names.

use vstd::prelude::*;
use base64::Engine;
use chrono::Datelike;

verus! {

/// The bytes that quoted-printable decoding, in robust mode, yields for the
/// text `s`.
pub uninterp spec fn qp_decoded(s: Seq<char>) -> Seq<u8>;

/// The characters that lossy UTF-8 conversion yields for the bytes `b`.
pub uninterp spec fn utf8_lossy_of(b: Seq<u8>) -> Seq<char>;

/// The text that HTML character-entity decoding yields for `s`.
pub uninterp spec fn entities_decoded(s: Seq<char>) -> Seq<char>;

/// The calendar date, as (year, month, day), that parsing `s` against the
/// template "<month name> <day>, <4-digit year>" yields, or `None` when `s`
/// does not name a valid date that way.
pub uninterp spec fn month_day_year(s: Seq<char>) -> Option<(int, int, int)>;

/// The bytes that standard base64 decoding yields for `s`, or `None` when
/// `s` is not valid base64.
pub uninterp spec fn base64_decoded(s: Seq<char>) -> Option<Seq<u8>>;

/// Relies on `String`'s `FromIterator<char>` impl: collecting characters
/// yields the string of exactly those characters.
#[verifier::external_body]
pub(crate) fn string_of(v: &Vec<char>) -> (r: String)
    ensures
        r@ == v@,
{
    v.iter().collect()
}

/// Relies on `quoted_printable::decode` in `ParseMode::Robust`: it decodes
/// the quoted-printable transfer encoding leniently, its result depends on
/// the input text alone, and in robust mode it never returns an error (every
/// error return in its source is reached only in strict mode).
#[verifier::external_body]
pub(crate) fn qp_decode(s: &str) -> (r: Vec<u8>)
    ensures
        r@ == qp_decoded(s@),
{
    match quoted_printable::decode(s.as_bytes(), quoted_printable::ParseMode::Robust) {
        Ok(v) => v,
        Err(_) => Vec::new(),
    }
}

/// Relies on `String::from_utf8_lossy`: invalid UTF-8 sequences are replaced
/// with the replacement character, the conversion never fails, and its result
/// depends on the bytes alone.
#[verifier::external_body]
pub(crate) fn utf8_lossy(b: &Vec<u8>) -> (r: String)
    ensures
        r@ == utf8_lossy_of(b@),
{
    String::from_utf8_lossy(b).to_string()
}

/// Relies on `html_escape::decode_html_entities`: character entities are
/// replaced by the characters they name and the result depends on the text
/// alone.
#[verifier::external_body]
pub(crate) fn decode_entities(s: &str) -> (r: String)
    ensures
        r@ == entities_decoded(s@),
{
    html_escape::decode_html_entities(s).to_string()
}

/// The exact shape of text handed to the date parser: a run of word
/// characters, a space, one or two digits, a comma and a space, and four
/// digits, with nothing after.
pub open spec fn date_text_shape(s: Seq<char>) -> bool {
    let we = crate::text::run_end_word(s, 0);
    if we < 1 || we >= s.len() || s[we] != ' ' {
        false
    } else {
        let de = crate::text::run_end_digit(s, we + 1);
        if !(de - we - 1 == 1 || de - we - 1 == 2) {
            false
        } else if !(de + 1 < s.len() && s[de] == ',' && s[de + 1] == ' ') {
            false
        } else {
            s.len() == de + 2 + 4 && crate::text::run_end_digit(s, de + 2) == s.len()
        }
    }
}

/// Relies on `chrono::NaiveDate::parse_from_str` with format "%B %d, %Y":
/// it is a function of the input text alone; it returns `Err` rather than
/// accept trailing input; on success the date is a valid calendar date, so
/// the month is 1..=12 and the day 1..=31; and, because the input's year
/// field is exactly four ASCII digits, the parsed year is 0..=9999.
#[verifier::external_body]
pub(crate) fn parse_month_day_year(s: &str) -> (r: Option<(i32, u8, u8)>)
    requires
        date_text_shape(s@),
    ensures
        match r {
            Some(ymd) => month_day_year(s@) == Some(
                (ymd.0 as int, ymd.1 as int, ymd.2 as int),
            ) && 0 <= ymd.0 <= 9999 && 1 <= ymd.1 <= 12 && 1 <= ymd.2 <= 31,
            None => month_day_year(s@) is None,
        },
{
    match chrono::NaiveDate::parse_from_str(s, "%B %d, %Y") {
        Ok(d) => Some((d.year(), d.month() as u8, d.day() as u8)),
        Err(_) => None,
    }
}

/// Relies on `base64::engine::general_purpose::STANDARD.decode`: the standard
/// alphabet with padding, a function of the input text alone, returning `Err`
/// exactly on input that is not valid base64.
#[verifier::external_body]
pub(crate) fn b64_decode(s: &str) -> (r: Option<Vec<u8>>)
    ensures
        match r {
            Some(v) => base64_decoded(s@) == Some(v@),
            None => base64_decoded(s@) is None,
        },
{
    match base64::engine::general_purpose::STANDARD.decode(s.as_bytes()) {
        Ok(v) => Some(v),
        Err(_) => None,
    }
}

} // verus!
