use vstd::prelude::*;
use crate::value::{Value, ValueView};

verus! {

/// The instant in UTC that a text denotes, as whole seconds since the Unix
/// epoch and the nanoseconds within the second, or `None` where the text
/// denotes none.
pub uninterp spec fn utc_instant(text: Seq<char>) -> Option<(i64, u32)>;

/// `str::parse::<chrono::DateTime<chrono::Utc>>`, which reads a relaxed form
/// of RFC 3339 and depends on the text alone. The instant comes back through
/// `DateTime::timestamp` and `DateTime::timestamp_subsec_nanos`; a text that
/// the parser refuses gives `None`.
#[verifier::external_body]
pub(crate) fn parse_utc(text: &str) -> (r: Option<(i64, u32)>)
    ensures
        r == utc_instant(text@),
{
    match text.parse::<chrono::DateTime<chrono::Utc>>() {
        Ok(instant) => Some((instant.timestamp(), instant.timestamp_subsec_nanos())),
        Err(_) => None,
    }
}

/// The text of the instant in UTC that lies `secs` whole seconds and `nanos`
/// nanoseconds after the Unix epoch, or `None` where no calendar date stands
/// for it.
pub uninterp spec fn instant_text(secs: i64, nanos: u32) -> Option<Seq<char>>;

/// `chrono::DateTime::to_rfc3339_opts` with `SecondsFormat::AutoSi` and `Z`
/// for the offset, on the instant that `chrono::DateTime::from_timestamp`
/// makes of the two numbers. The text depends on the numbers alone; where
/// `from_timestamp` finds them out of range there is none.
#[verifier::external_body]
pub(crate) fn format_utc(secs: i64, nanos: u32) -> (r: Option<String>)
    ensures
        match r {
            Some(text) => instant_text(secs, nanos) == Some(text@),
            None => instant_text(secs, nanos) is None,
        },
{
    match chrono::DateTime::from_timestamp(secs, nanos) {
        Some(instant) => Some(instant.to_rfc3339_opts(chrono::SecondsFormat::AutoSi, true)),
        None => None,
    }
}

/// The literal that a date-time leaf stands for: the instant where its text
/// was read as one, and the text itself where it was not.
pub open spec fn datetime_literal(text: Seq<char>, instant: Option<(i64, u32)>) -> ValueView {
    match instant {
        Some((secs, nanos)) => ValueView::Timestamp(secs, nanos),
        None => ValueView::Text(text),
    }
}

/// The literal of a date-time leaf, given what reading its text as an instant
/// gave.
pub fn datetime_value(text: String, instant: Option<(i64, u32)>) -> (r: Value)
    ensures
        r@ == datetime_literal(text@, instant),
{
    match instant {
        Some((secs, nanos)) => Value::Timestamp(secs, nanos),
        None => Value::Text(text),
    }
}

/// The literal of a date-time leaf with the given text. A text that is no
/// instant is kept as text: this never fails.
pub fn datetime_leaf(text: &String) -> (r: Value)
    ensures
        r@ == datetime_literal(text@, utc_instant(text@)),
{
    let instant = parse_utc(text.as_str());
    datetime_value(text.clone(), instant)
}

} // verus!
