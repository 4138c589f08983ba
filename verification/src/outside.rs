//! Calls into other crates whose results the library takes as they come.

use vstd::prelude::*;

use crate::json::Json;
use crate::json::JsonView;
use crate::time::Timestamp;

verus! {

/// The date and time `seconds` and `nanos` after the start of 1970 in UTC, as RFC 3339
/// writes them.
pub uninterp spec fn rfc3339_text(seconds: int, nanos: int) -> Seq<char>;

/// The date and time of a point in time, as RFC 3339 writes them.
pub open spec fn timestamp_text(t: Timestamp) -> Seq<char> {
    rfc3339_text(
        t.nanos as int / crate::time::NANOS_PER_SECOND as int,
        t.nanos as int % crate::time::NANOS_PER_SECOND as int,
    )
}

/// `chrono::DateTime::to_rfc3339`, on the date and time that
/// `chrono::DateTime::from_timestamp` makes of whole seconds and the nanoseconds of the
/// started one: what is written depends on these two numbers alone.
#[verifier::external_body]
fn date_text(seconds: i64, nanos: u32) -> (r: String)
    requires
        crate::time::EARLIEST_SECOND <= seconds <= crate::time::LATEST_SECOND,
        nanos < 1_000_000_000,
    ensures
        r@ == rfc3339_text(seconds as int, nanos as int),
{
    match chrono::DateTime::from_timestamp(seconds, nanos) {
        Some(date) => date.to_rfc3339(),
        None => String::new(),
    }
}

/// The date and time of a point in time, as RFC 3339 writes them.
pub fn rfc3339(t: Timestamp) -> (r: String)
    requires
        t.calendar(),
    ensures
        r@ == timestamp_text(t),
{
    let (seconds, nanos): (i64, u32) = t.split();
    date_text(seconds, nanos)
}

/// The date and time `seconds` and `nanos` after the start of 1970 in UTC, as RFC 3339
/// writes them with `Z` for UTC.
pub uninterp spec fn rfc3339_z_text(seconds: int, nanos: int) -> Seq<char>;

/// `chrono::DateTime::to_rfc3339_opts`, with as many digits of the second as are needed and
/// `Z` for UTC, on the date and time that `chrono::DateTime::from_timestamp` makes of whole
/// seconds and the nanoseconds of the started one: what is written depends on these two
/// numbers alone.
#[verifier::external_body]
fn date_z_text(seconds: i64, nanos: u32) -> (r: String)
    requires
        crate::time::EARLIEST_SECOND <= seconds <= crate::time::LATEST_SECOND,
        nanos < 1_000_000_000,
    ensures
        r@ == rfc3339_z_text(seconds as int, nanos as int),
{
    match chrono::DateTime::from_timestamp(seconds, nanos) {
        Some(date) => date.to_rfc3339_opts(chrono::SecondsFormat::AutoSi, true),
        None => String::new(),
    }
}

/// A point in time as a JSON document: its date and time, or `null` where no calendar date
/// is kept for it.
pub open spec fn timestamp_json(t: Timestamp) -> JsonView {
    if t.calendar() {
        JsonView::Text(
            rfc3339_z_text(
                t.nanos as int / crate::time::NANOS_PER_SECOND as int,
                t.nanos as int % crate::time::NANOS_PER_SECOND as int,
            ),
        )
    } else {
        JsonView::Null
    }
}

pub fn timestamp_to_json(t: Timestamp) -> (r: Json)
    ensures
        r@ == timestamp_json(t),
{
    if t.is_calendar() {
        let (seconds, nanos): (i64, u32) = t.split();
        Json::Text(date_z_text(seconds, nanos))
    } else {
        Json::Null
    }
}

/// Whether a text has the form of an identifier: 36 characters, with the version in its place.
pub open spec fn is_id(s: Seq<char>) -> bool {
    s.len() == 36 && s[14] == '4'
}

/// A text that has the form of an identifier.
pub open spec fn some_id() -> Seq<char> {
    Seq::new(36, |i: int| '4')
}

/// `uuid::Uuid::new_v4`, written by its `Display`: 36 characters, of which the fifteenth
/// is the version, four. The others are random.
#[verifier::external_body]
pub(crate) fn fresh_id() -> (r: String)
    ensures
        is_id(r@),
{
    uuid::Uuid::new_v4().to_string()
}

/// `chrono::Utc::now`: the whole seconds since the start of 1970 and the nanoseconds of
/// the started one. They are a calendar time and not before 1970; on a machine whose clock
/// stands before 1970 the call does not return. Which time it is, is left open.
#[verifier::external_body]
fn clock() -> (r: (i64, u32))
    ensures
        0 <= r.0 <= crate::time::LATEST_SECOND,
        r.1 < 1_000_000_000,
{
    let now = chrono::Utc::now();
    (now.timestamp(), now.timestamp_subsec_nanos())
}

/// Whether a clock may show a time: a calendar time not before 1970.
pub open spec fn is_clock_time(t: Timestamp) -> bool {
    t.calendar() && 0 <= t.nanos
}

/// The present time: some calendar time not before 1970, that of the machine's clock.
pub fn current_time() -> (r: Timestamp)
    ensures
        is_clock_time(r),
{
    let (seconds, nanos): (i64, u32) = clock();
    Timestamp::joined(seconds, nanos)
}

} // verus!
