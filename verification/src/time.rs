//! Moments in time as the engine holds them, and their renderings.

use vstd::prelude::*;

verus! {

/// A moment in time: the number of non-leap nanoseconds since
/// 1970-01-01T00:00:00Z.
#[derive(Debug, Clone, Copy, PartialEq, Eq, Structural)]
pub struct Timestamp {
    pub nanos: i64,
}

/// The RFC 3339 rendering of the moment `nanos` nanoseconds after the epoch,
/// as `chrono::DateTime::<Utc>::to_rfc3339` writes it.
pub uninterp spec fn rfc3339_text(nanos: i64) -> Seq<char>;

/// The plain rendering of the moment `nanos` nanoseconds after the epoch, as
/// the `Display` impl of `chrono::DateTime<Utc>` writes it.
pub uninterp spec fn display_text(nanos: i64) -> Seq<char>;

/// The day that `text` names when read with the format `format`, as the
/// number of days since 0001-01-01 counted from 1, or `None` where
/// `chrono::NaiveDate::parse_from_str` refuses the text.
pub uninterp spec fn parsed_day(text: Seq<char>, format: Seq<char>) -> Option<i32>;

/// Whether `chrono::DateTime::parse_from_rfc3339` accepts `text`.
pub uninterp spec fn accepted_as_rfc3339(text: Seq<char>) -> bool;

/// Reads a date with `chrono::NaiveDate::parse_from_str` and counts its days
/// with `Datelike::num_days_from_ce`. A text that does not parse gives
/// `None`. The result is named [`parsed_day`].
#[verifier::external_body]
pub(crate) fn parse_day(text: &str, format: &str) -> (day: Option<i32>)
    ensures
        day == parsed_day(text@, format@),
{
    match chrono::NaiveDate::parse_from_str(text, format) {
        Ok(date) => Some(chrono::Datelike::num_days_from_ce(&date)),
        Err(_) => None,
    }
}

/// Asks `chrono::DateTime::parse_from_rfc3339` whether `text` is a date and
/// time in RFC 3339 form. The answer is named [`accepted_as_rfc3339`].
#[verifier::external_body]
pub(crate) fn is_rfc3339(text: &str) -> (yes: bool)
    ensures
        yes == accepted_as_rfc3339(text@),
{
    chrono::DateTime::parse_from_rfc3339(text).is_ok()
}

/// Builds the moment with `chrono::DateTime::from_timestamp_nanos`, which
/// accepts every `i64`, and renders it with `DateTime::to_rfc3339`. The text
/// is named [`rfc3339_text`].
#[verifier::external_body]
fn format_rfc3339(nanos: i64) -> (text: String)
    ensures
        text@ == rfc3339_text(nanos),
{
    chrono::DateTime::from_timestamp_nanos(nanos).to_rfc3339()
}

/// Builds the moment with `chrono::DateTime::from_timestamp_nanos`, which
/// accepts every `i64`, and renders it through its `Display` impl. The text
/// is named [`display_text`].
#[verifier::external_body]
fn format_display(nanos: i64) -> (text: String)
    ensures
        text@ == display_text(nanos),
{
    chrono::DateTime::from_timestamp_nanos(nanos).to_string()
}

impl Timestamp {
    /// The moment in RFC 3339 form, such as `2024-01-15T10:30:00+00:00`.
    pub fn to_rfc3339(&self) -> (text: String)
        ensures
            text@ == rfc3339_text(self.nanos),
    {
        format_rfc3339(self.nanos)
    }

    /// The moment in plain form, such as `2024-01-15 10:30:00 UTC`.
    pub fn to_display(&self) -> (text: String)
        ensures
            text@ == display_text(self.nanos),
    {
        format_display(self.nanos)
    }
}

} // verus!
