//! Calls into `unicode-normalization` and `chrono`, with the contracts that
//! the rest of the library relies on.
use chrono::{DateTime, Datelike, NaiveDate, NaiveDateTime, Timelike, Utc};
use unicode_normalization::UnicodeNormalization;
use vstd::prelude::*;

verus! {

/// The Unicode Normalization Form C of a character sequence, as computed by
/// `unicode_normalization::UnicodeNormalization::nfc`.
pub uninterp spec fn nfc_of(s: Seq<char>) -> Seq<char>;

/// Canonical composition of `s` by `UnicodeNormalization::nfc` (from the
/// `unicode-normalization` crate), collected into a `String`.  The contract
/// claims only that the result is the normal form of the argument, i.e. a
/// function of the characters of `s` alone; nothing is stated about its value.
#[verifier::external_body]
pub(crate) fn nfc(s: &str) -> (r: String)
    ensures
        r@ == nfc_of(s@),
{
    s.nfc().collect::<String>()
}

/// The result of `chrono::NaiveDateTime::parse_from_str(text, format)`, as
/// (year, month, day, hour, minute, second, nanosecond), or `None` when it
/// fails.
pub uninterp spec fn chrono_date_time(text: Seq<char>, format: Seq<char>) -> Option<
    (i32, u32, u32, u32, u32, u32, u32),
>;

/// `chrono::NaiveDateTime::parse_from_str`.  The contract claims only that
/// the outcome is a function of the text and the format; the calendar fields
/// are read from the parsed value with chrono's `Datelike` and `Timelike`
/// accessors.
#[verifier::external_body]
pub(crate) fn parse_date_time(text: &str, format: &str) -> (r: Option<
    (i32, u32, u32, u32, u32, u32, u32),
>)
    ensures
        r == chrono_date_time(text@, format@),
{
    match NaiveDateTime::parse_from_str(text, format) {
        Ok(d) => Some((d.year(), d.month(), d.day(), d.hour(), d.minute(), d.second(), d.nanosecond())),
        Err(_) => None,
    }
}

/// The result of `chrono::NaiveDate::parse_from_str(text, format)`, as
/// (year, month, day), or `None` when it fails.
pub uninterp spec fn chrono_date(text: Seq<char>, format: Seq<char>) -> Option<(i32, u32, u32)>;

/// `chrono::NaiveDate::parse_from_str`.  The contract claims only that the
/// outcome is a function of the text and the format.
#[verifier::external_body]
pub(crate) fn parse_date(text: &str, format: &str) -> (r: Option<(i32, u32, u32)>)
    ensures
        r == chrono_date(text@, format@),
{
    match NaiveDate::parse_from_str(text, format) {
        Ok(d) => Some((d.year(), d.month(), d.day())),
        Err(_) => None,
    }
}

/// The UTC calendar time of a Unix timestamp in whole seconds, as given by
/// `chrono::DateTime::<Utc>::from_timestamp(secs, 0)` and `naive_utc`, as
/// (year, month, day, hour, minute, second, nanosecond); `None` when chrono
/// cannot represent it.
pub uninterp spec fn chrono_timestamp(secs: i64) -> Option<(i32, u32, u32, u32, u32, u32, u32)>;

/// `chrono::DateTime::<Utc>::from_timestamp(secs, 0)`, read through
/// `naive_utc`.  The contract claims only that the outcome is a function of
/// `secs`.
#[verifier::external_body]
pub(crate) fn utc_from_timestamp(secs: i64) -> (r: Option<(i32, u32, u32, u32, u32, u32, u32)>)
    ensures
        r == chrono_timestamp(secs),
{
    match DateTime::<Utc>::from_timestamp(secs, 0) {
        Some(d) => {
            let n = d.naive_utc();
            Some((n.year(), n.month(), n.day(), n.hour(), n.minute(), n.second(), n.nanosecond()))
        },
        None => None,
    }
}

/// The lower-case form of a string as std's `str::to_lowercase` computes it.
pub uninterp spec fn lowercase_of(s: Seq<char>) -> Seq<char>;

/// std `str::to_lowercase`.  The contract claims only that the result is a
/// function of the characters of `s`; the Unicode case mapping is not stated.
#[verifier::external_body]
pub(crate) fn lowercase(s: &str) -> (r: String)
    ensures
        r@ == lowercase_of(s@),
{
    s.to_lowercase()
}

} // verus!
