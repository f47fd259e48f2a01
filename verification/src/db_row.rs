//! How the reader's records are stored in table columns: flags as 0/1, the
//! last-update time of a source as text, stored rules as non-empty text.
use vstd::prelude::*;
use crate::text::{chars_of, opt_str};

verus! {

/// A flag as an integer column: 1 or 0.
pub fn bool_to_int(v: bool) -> (r: i32)
    ensures
        r == (if v { 1i32 } else { 0i32 }),
{
    if v {
        1
    } else {
        0
    }
}

/// An integer column as a flag: anything but 0 is set.
pub fn int_to_bool(v: i32) -> (r: bool)
    ensures
        r == (v != 0),
{
    v != 0
}

/// What the last-update column of a stored source held.
#[derive(Debug, Clone)]
pub enum TimeColumn {
    /// Seconds since the epoch.
    Integer(i64),
    /// No value.
    Null,
    /// Text, taken as it is.
    Text(String),
    /// Neither an integer nor text.
    Unreadable,
}

/// The RFC 3339 text (in UTC) of a time given in seconds since the epoch,
/// `None` when the time is out of the representable range.
pub uninterp spec fn rfc3339_of_timestamp(ts: i64) -> Option<Seq<char>>;

/// `chrono::DateTime::from_timestamp(ts, 0)` formatted with `to_rfc3339`.
#[verifier::external_body]
fn timestamp_rfc3339(ts: i64) -> (r: Option<String>)
    ensures
        opt_str(r) == rfc3339_of_timestamp(ts),
{
    chrono::DateTime::from_timestamp(ts, 0).map(|dt| dt.to_rfc3339())
}

/// The converted time, or the current time when there is none.
pub fn converted_or_now(converted: Option<String>, now: String) -> (r: String)
    ensures
        r@ == match converted {
            Some(t) => t@,
            None => now@,
        },
{
    match converted {
        Some(t) => t,
        None => now,
    }
}

/// The last-update time of a stored source: an integer column is converted
/// from seconds since the epoch, text is kept, anything else (or a time out
/// of range) gives the current time `now`.
pub fn update_time_from_column(col: TimeColumn, now: String) -> (r: String)
    ensures
        r@ == match col {
            TimeColumn::Integer(ts) => match rfc3339_of_timestamp(ts) {
                Some(t) => t,
                None => now@,
            },
            TimeColumn::Text(s) => s@,
            TimeColumn::Null => now@,
            TimeColumn::Unreadable => now@,
        },
{
    match col {
        TimeColumn::Integer(ts) => converted_or_now(timestamp_rfc3339(ts), now),
        TimeColumn::Text(s) => s,
        TimeColumn::Null => now,
        TimeColumn::Unreadable => now,
    }
}

/// A stored rule column worth reading: present and not empty.
pub fn stored_rule_text(col: Option<String>) -> (r: Option<String>)
    ensures
        opt_str(r) == match col {
            Some(s) => if s@.len() > 0 {
                Some(s@)
            } else {
                None
            },
            None => None,
        },
{
    match col {
        Some(s) => {
            if chars_of(s.as_str()).len() > 0 {
                Some(s)
            } else {
                None
            }
        },
        None => None,
    }
}

} // verus!
