//! Calendar texts of Unix timestamps, computed by `chrono` and `chrono-tz`.
//!
//! What these texts hold (the proleptic Gregorian calendar, the time zone
//! rules of the IANA database) is named here rather than spelled out: each
//! name stands for what the crate computes from its arguments alone.
use vstd::prelude::*;

verus! {

/// Whether `chrono` represents the Unix timestamp (whole seconds) as a
/// `DateTime<Utc>`.
pub uninterp spec fn chrono_timestamp_in_range(timestamp: int) -> bool;

/// The UTC date of a timestamp as `chrono` formats it with `%Y%m%d`.
pub uninterp spec fn chrono_utc_date(timestamp: int) -> Seq<char>;

/// The UTC date and time of a timestamp as `chrono` formats it with
/// `%Y%m%dT%H%M%SZ`.
pub uninterp spec fn chrono_utc_date_time(timestamp: int) -> Seq<char>;

/// Whether `chrono-tz` knows the IANA time zone of this exact name.
pub uninterp spec fn chrono_tz_known(zone: Seq<char>) -> bool;

/// The local date and time of a timestamp in a time zone as `chrono` formats
/// it with `%Y%m%dT%H%M%S`.
pub uninterp spec fn chrono_local_date_time(timestamp: int, zone: Seq<char>) -> Seq<char>;

/// `DateTime::<Utc>::from_timestamp(timestamp, 0)` formatted with `%Y%m%d`;
/// `None` exactly when chrono does not represent the timestamp.
#[verifier::external_body]
pub fn utc_date(timestamp: i64) -> (r: Option<String>)
    ensures
        r is Some <==> chrono_timestamp_in_range(timestamp as int),
        r matches Some(t) ==> t@ == chrono_utc_date(timestamp as int),
{
    match chrono::DateTime::<chrono::Utc>::from_timestamp(timestamp, 0) {
        Some(t) => Some(t.format("%Y%m%d").to_string()),
        None => None,
    }
}

/// `DateTime::<Utc>::from_timestamp(timestamp, 0)` formatted with
/// `%Y%m%dT%H%M%SZ`; `None` exactly when chrono does not represent the
/// timestamp.
#[verifier::external_body]
pub fn utc_date_time(timestamp: i64) -> (r: Option<String>)
    ensures
        r is Some <==> chrono_timestamp_in_range(timestamp as int),
        r matches Some(t) ==> t@ == chrono_utc_date_time(timestamp as int),
{
    match chrono::DateTime::<chrono::Utc>::from_timestamp(timestamp, 0) {
        Some(t) => Some(t.format("%Y%m%dT%H%M%SZ").to_string()),
        None => None,
    }
}

/// The timestamp in the named zone, formatted with `%Y%m%dT%H%M%S`; `None`
/// exactly when chrono does not represent the timestamp or chrono-tz does not
/// know the zone.
#[verifier::external_body]
pub fn local_date_time(timestamp: i64, zone: &str) -> (r: Option<String>)
    ensures
        r is Some ==> chrono_timestamp_in_range(timestamp as int),
        r is Some ==> chrono_tz_known(zone@),
        r is None ==> !chrono_timestamp_in_range(timestamp as int) || !chrono_tz_known(zone@),
        r matches Some(t) ==> t@ == chrono_local_date_time(timestamp as int, zone@),
{
    match (zone.parse::<chrono_tz::Tz>(), chrono::DateTime::<chrono::Utc>::from_timestamp(timestamp, 0)) {
        (Ok(tz), Some(t)) => Some(t.with_timezone(&tz).format("%Y%m%dT%H%M%S").to_string()),
        _ => None,
    }
}

} // verus!
