//! The calls that leave this library: the clock, the random source, and the
//! text codecs of other crates. Nothing here is proved. Each contract states
//! what the called function is documented to do, and where that is too long
//! to state, gives its result a name that the rest of the library reasons
//! with.

use vstd::prelude::*;
use base64::Engine;
use rand::seq::SliceRandom;

verus! {

/// The reason for which `url` refused a text: `url::ParseError`.
#[verifier::external_type_specification]
#[verifier::external_body]
pub struct ExUrlParseError(url::ParseError);

/// The seconds since the Unix epoch of the moment that `text` writes in
/// RFC 3339, as `chrono` reads it; `None` where `chrono` refuses `text`.
pub uninterp spec fn rfc3339_timestamp(text: Seq<char>) -> Option<int>;

/// The date and time of day in UTC that `chrono` prints for the moment
/// `seconds` after the Unix epoch, as year, month and day, a `T`, and hour,
/// minute and second, without a zone; `None` where `chrono` has no date for
/// that moment.
pub uninterp spec fn utc_clock(seconds: int) -> Option<Seq<char>>;

/// The standard padded base64 form of the UTF-8 bytes of `text`.
pub uninterp spec fn base64_standard(text: Seq<char>) -> Seq<char>;

/// The form in which `url` writes the URL that it reads in `text`; `None`
/// where it reads none.
pub uninterp spec fn url_normal_form(text: Seq<char>) -> Option<Seq<char>>;

/// The JSON string literal that `serde_json` writes for `text`.
pub uninterp spec fn json_string_literal(text: Seq<char>) -> Seq<char>;

/// Reads the clock: `chrono::Utc::now().timestamp()`. Nothing is claimed of
/// the reading.
#[verifier::external_body]
pub(crate) fn unix_now() -> (now: i64) {
    chrono::Utc::now().timestamp()
}

/// `chrono::DateTime::parse_from_rfc3339`, then `timestamp`: the result is
/// the named reading of `text`.
#[verifier::external_body]
pub(crate) fn parse_rfc3339(text: &str) -> (seconds: Option<i64>)
    ensures
        match seconds {
            Some(t) => rfc3339_timestamp(text@) == Some(t as int),
            None => rfc3339_timestamp(text@) is None,
        },
{
    match chrono::DateTime::parse_from_rfc3339(text) {
        Ok(moment) => Some(moment.timestamp()),
        Err(_) => None,
    }
}

/// `chrono::DateTime::from_timestamp`, then `format`: the result is the
/// named UTC clock text of `seconds`.
#[verifier::external_body]
pub(crate) fn utc_clock_of_seconds(seconds: i64) -> (clock: Option<String>)
    ensures
        match clock {
            Some(c) => utc_clock(seconds as int) == Some(c@),
            None => utc_clock(seconds as int) is None,
        },
{
    match chrono::DateTime::from_timestamp(seconds, 0) {
        Some(moment) => Some(moment.format("%Y-%m-%dT%H:%M:%S").to_string()),
        None => None,
    }
}

/// `rand::random::<u128>()`. Nothing is claimed of the number.
#[verifier::external_body]
pub(crate) fn random_u128() -> (n: u128) {
    rand::random::<u128>()
}

/// `rand::seq::SliceRandom::choose` with the thread's generator: one of the
/// items, whichever the generator picks, and `None` only for no items.
#[verifier::external_body]
pub(crate) fn choose_one(items: &Vec<String>) -> (picked: Option<String>)
    ensures
        match picked {
            Some(p) => exists|i: int| 0 <= i < items@.len() && (#[trigger] items@[i])@ == p@,
            None => items@.len() == 0,
        },
{
    items.choose(&mut rand::thread_rng()).cloned()
}

/// `base64::engine::general_purpose::STANDARD.encode`: the result is the
/// named base64 text of `text`.
#[verifier::external_body]
pub(crate) fn base64_encode(text: &str) -> (encoded: String)
    ensures
        encoded@ == base64_standard(text@),
{
    base64::engine::general_purpose::STANDARD.encode(text)
}

/// `url::Url::parse`, then the URL's serialization: the result is the named
/// normal form of `text`, or the parser's refusal.
#[verifier::external_body]
pub(crate) fn normalize_url(text: &str) -> (parsed: Result<String, url::ParseError>)
    ensures
        match parsed {
            Ok(u) => url_normal_form(text@) == Some(u@),
            Err(_) => url_normal_form(text@) is None,
        },
{
    match url::Url::parse(text) {
        Ok(u) => Ok(String::from(u)),
        Err(e) => Err(e),
    }
}

/// `serde_json::Value::String`, printed: the result is the named JSON
/// literal of `text`.
#[verifier::external_body]
pub(crate) fn json_quote(text: &str) -> (literal: String)
    ensures
        literal@ == json_string_literal(text@),
{
    serde_json::Value::String(text.to_string()).to_string()
}

} // verus!
