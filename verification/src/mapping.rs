//! Mapping between Proton events and iCalendar text.
//!
//! Reading: the clear metadata of a [`RawEvent`] and the decrypted cards are
//! merged into one property table, keyed by property name, from which one
//! VEVENT is written. Writing: the properties of a local event are split into
//! the card that is signed in the clear, the card that is encrypted, and the
//! calendar card.
use caldir_core::{Event, EventError};
use vstd::prelude::*;

use crate::calendar::{Notification, RawEvent};
use crate::constants::ITEM_UID_PROPERTY;
use crate::decimal::{decimal, push_decimal, push_signed_decimal, signed_decimal};
use crate::duration::{reminder_from_trigger, trigger_from_reminder, trigger_minutes, trigger_text};
use crate::ics::{
    event_properties, extract_event_properties, is_plain_property, lemma_wrapped_event_reads_back,
    property_name, property_name_of, views, wrap_event, wrapped_event,
};
use crate::properties::{
    all_lines, append, lemma_entry_lines_listed, lemma_lookup_entry, lemma_put_lookup, lookup, put,
    Entry, PropertyTable,
};
use crate::text::{
    ascii_upper, chars_equal_str, chars_of, extend_chars, extend_str, has_prefix, starts_with_str,
    string_of, sub_chars, upper_chars,
};
use crate::timestamps::{
    chrono_local_date_time, chrono_timestamp_in_range, chrono_tz_known, chrono_utc_date,
    chrono_utc_date_time, local_date_time, utc_date, utc_date_time,
};

verus! {

/// Why an event could not be mapped.
#[derive(Debug, Clone)]
pub enum MappingError {
    /// The Proton event has no UID.
    MissingUid { event_id: String },
    /// A timestamp of the event is outside the range chrono represents.
    TimestampOutOfRange { timestamp: i64 },
    /// The event names a time zone that chrono-tz does not know.
    UnknownTimezone { zone: String },
    /// The local event has attendees, which this provider does not write.
    AttendeesNotSupported,
    /// The event text is not a calendar `caldir-core` can read.
    InvalidIcs,
    /// The event text holds this many events rather than one.
    EventCount { found: usize },
    /// The one event of the text is not an event `caldir-core` can read.
    InvalidEvent,
}

/// The message a mapping failure is reported with.
pub open spec fn mapping_error_message(e: MappingError) -> Seq<char> {
    match e {
        MappingError::MissingUid { event_id } => "Proton event "@ + event_id@ + " has no UID"@,
        MappingError::TimestampOutOfRange { timestamp } => "Proton timestamp "@ + signed_decimal(
            timestamp,
        ) + " is out of range"@,
        MappingError::UnknownTimezone { zone } => "Unknown Proton timezone: "@ + zone@,
        MappingError::AttendeesNotSupported => "Proton attendee and invitation writes are not supported"@,
        MappingError::InvalidIcs => "Decrypted Proton cards are invalid ICS"@,
        MappingError::EventCount { found } => "Expected one Proton VEVENT, found "@ + decimal(
            found as nat,
        ),
        MappingError::InvalidEvent => "Failed to parse decrypted Proton VEVENT"@,
    }
}

impl MappingError {
    /// The message the failure is reported with (see [`mapping_error_message`]).
    pub fn message(&self) -> (r: String)
        ensures
            r@ == mapping_error_message(*self),
    {
        let mut out: Vec<char> = Vec::new();
        match self {
            MappingError::MissingUid { event_id } => {
                extend_str(&mut out, "Proton event ");
                extend_str(&mut out, event_id.as_str());
                extend_str(&mut out, " has no UID");
            },
            MappingError::TimestampOutOfRange { timestamp } => {
                extend_str(&mut out, "Proton timestamp ");
                push_signed_decimal(&mut out, *timestamp);
                extend_str(&mut out, " is out of range");
            },
            MappingError::UnknownTimezone { zone } => {
                extend_str(&mut out, "Unknown Proton timezone: ");
                extend_str(&mut out, zone.as_str());
            },
            MappingError::AttendeesNotSupported => {
                extend_str(&mut out, "Proton attendee and invitation writes are not supported");
            },
            MappingError::InvalidIcs => {
                extend_str(&mut out, "Decrypted Proton cards are invalid ICS");
            },
            MappingError::EventCount { found } => {
                extend_str(&mut out, "Expected one Proton VEVENT, found ");
                push_decimal(&mut out, *found as u64);
            },
            MappingError::InvalidEvent => {
                extend_str(&mut out, "Failed to parse decrypted Proton VEVENT");
            },
        }
        string_of(&out)
    }
}

/// A `Result` with the text of its success taken as a view.
pub open spec fn text_result(r: Result<String, MappingError>) -> Result<Seq<char>, MappingError> {
    match r {
        Ok(s) => Ok(s@),
        Err(e) => Err(e),
    }
}

/// The time zone a time is written in: the given zone, unless it is absent
/// or `UTC` in any case.
pub open spec fn named_zone(tz: Option<String>) -> Option<String> {
    match tz {
        Some(z) => if ascii_upper(z@) == "UTC"@ {
            None
        } else {
            Some(z)
        },
        None => None,
    }
}

/// A date-time property line for a timestamp: `NAME;VALUE=DATE:<date>` for
/// all-day events, `NAME;TZID=<zone>:<local time>` in a named zone, and
/// `NAME:<UTC time>Z` otherwise.
pub open spec fn time_property(name: Seq<char>, timestamp: i64, tz: Option<String>, all_day: bool) -> Result<
    Seq<char>,
    MappingError,
> {
    if !chrono_timestamp_in_range(timestamp as int) {
        Err(MappingError::TimestampOutOfRange { timestamp })
    } else if all_day {
        Ok(name + ";VALUE=DATE:"@ + chrono_utc_date(timestamp as int))
    } else {
        match named_zone(tz) {
            Some(z) => if chrono_tz_known(z@) {
                Ok(name + ";TZID="@ + z@ + ":"@ + chrono_local_date_time(timestamp as int, z@))
            } else {
                Err(MappingError::UnknownTimezone { zone: z })
            },
            None => Ok(name + ":"@ + chrono_utc_date_time(timestamp as int)),
        }
    }
}

/// `s` with every leading copy of `p` removed (`str::trim_start_matches`).
pub open spec fn trim_leading(s: Seq<char>, p: Seq<char>) -> Seq<char>
    decreases s.len(),
{
    if p.len() > 0 && has_prefix(s, p) {
        trim_leading(s.skip(p.len() as int), p)
    } else {
        s
    }
}

/// The EXDATE lines of the event added one by one to a table.
pub open spec fn with_exdates(
    t: Seq<Entry>,
    exdates: Seq<i64>,
    tz: Option<String>,
    all_day: bool,
) -> Result<Seq<Entry>, MappingError>
    decreases exdates.len(),
{
    if exdates.len() == 0 {
        Ok(t)
    } else {
        match with_exdates(t, exdates.drop_last(), tz, all_day) {
            Err(e) => Err(e),
            Ok(t2) => match time_property("EXDATE"@, exdates.last(), tz, all_day) {
                Err(e) => Err(e),
                Ok(l) => Ok(append(t2, "EXDATE"@, l)),
            },
        }
    }
}

/// The properties taken from the clear metadata of a Proton event: UID,
/// DTSTART, DTEND, RRULE, SEQUENCE, RECURRENCE-ID and the EXDATEs. A missing
/// UID, a timestamp out of range or an unknown zone makes it fail, with the
/// first failure in that order.
pub open spec fn base_properties(raw: &RawEvent) -> Result<Seq<Entry>, MappingError> {
    let all_day = raw.full_day != 0;
    if raw.uid@.len() == 0 {
        Err(MappingError::MissingUid { event_id: raw.id })
    } else {
        let t0 = put(Seq::empty(), "UID"@, seq!["UID:"@ + raw.uid@]);
        match time_property("DTSTART"@, raw.start_time, raw.start_timezone, all_day) {
            Err(e) => Err(e),
            Ok(ds) => {
                let t1 = put(t0, "DTSTART"@, seq![ds]);
                match time_property("DTEND"@, raw.end_time, raw.end_timezone, all_day) {
                    Err(e) => Err(e),
                    Ok(de) => {
                        let t2 = put(t1, "DTEND"@, seq![de]);
                        let t3 = match raw.rrule {
                            Some(r) => if r@.len() > 0 {
                                put(t2, "RRULE"@, seq!["RRULE:"@ + trim_leading(r@, "RRULE:"@)])
                            } else {
                                t2
                            },
                            None => t2,
                        };
                        let t4 = match raw.sequence {
                            Some(n) => put(t3, "SEQUENCE"@, seq!["SEQUENCE:"@ + signed_decimal(n)]),
                            None => t3,
                        };
                        match raw.recurrence_id {
                            Some(rid) => match time_property(
                                "RECURRENCE-ID"@,
                                rid,
                                raw.start_timezone,
                                all_day,
                            ) {
                                Err(e) => Err(e),
                                Ok(l) => with_exdates(
                                    put(t4, "RECURRENCE-ID"@, seq![l]),
                                    raw.exdates@,
                                    raw.start_timezone,
                                    all_day,
                                ),
                            },
                            None => with_exdates(t4, raw.exdates@, raw.start_timezone, all_day),
                        }
                    },
                }
            },
        }
    }
}

/// Properties that may occur several times and are collected rather than
/// replaced.
pub open spec fn is_multi_valued(name: Seq<char>) -> bool {
    name == "ATTENDEE"@ || name == "EXDATE"@ || name == "RDATE"@ || name == "ATTACH"@
}

/// Properties of the cards that are not carried over.
pub open spec fn is_dropped_on_read(name: Seq<char>) -> bool {
    name.len() == 0 || name == "LAST-MODIFIED"@ || name == "CREATED"@
}

/// One card line merged into the table: dropped names are ignored,
/// multi-valued names collect the line, any other name is replaced by it.
pub open spec fn merge_line(t: Seq<Entry>, line: Seq<char>) -> Seq<Entry> {
    let name = property_name_of(line);
    if is_dropped_on_read(name) {
        t
    } else if is_multi_valued(name) {
        append(t, name, line)
    } else {
        put(t, name, seq![line])
    }
}

/// Lines merged into the table in order.
pub open spec fn merge_lines(t: Seq<Entry>, lines: Seq<Seq<char>>) -> Seq<Entry>
    decreases lines.len(),
{
    if lines.len() == 0 {
        t
    } else {
        merge_line(merge_lines(t, lines.drop_last()), lines.last())
    }
}

/// The VEVENT properties of the cards merged into the table, card by card.
pub open spec fn merge_cards(t: Seq<Entry>, cards: Seq<Seq<char>>) -> Seq<Entry>
    decreases cards.len(),
{
    if cards.len() == 0 {
        t
    } else {
        merge_lines(merge_cards(t, cards.drop_last()), event_properties(cards.last()))
    }
}

/// The one-event calendar read from a Proton event and its decrypted cards.
pub open spec fn event_text(raw: &RawEvent, cards: Seq<Seq<char>>) -> Result<Seq<char>, MappingError> {
    match base_properties(raw) {
        Err(e) => Err(e),
        Ok(t) => Ok(wrapped_event(all_lines(merge_cards(t, cards)))),
    }
}

/// The sequence number an `i32` can hold: the value itself, or `i32::MAX`
/// when it does not fit.
pub open spec fn clamped_sequence(n: i64) -> i32 {
    if i32::MIN <= n && n <= i32::MAX {
        n as i32
    } else {
        i32::MAX
    }
}

/// The reminders of the notifications whose triggers can be read, in order.
pub open spec fn reminders_of(ns: Seq<Notification>) -> Seq<i64>
    decreases ns.len(),
{
    if ns.len() == 0 {
        Seq::empty()
    } else {
        match trigger_minutes(ns.last().trigger@) {
            Some(m) => reminders_of(ns.drop_last()).push(m),
            None => reminders_of(ns.drop_last()),
        }
    }
}

/// A point in time as an event property states it.
#[derive(Debug, Clone)]
pub enum EventInstant {
    /// A whole day, the UTC date of the timestamp.
    Date { timestamp: i64 },
    /// A local time in a named zone.
    Zoned { timestamp: i64, zone: String },
    /// A UTC time.
    Utc { timestamp: i64 },
}

/// How a timestamp of the event is stated: as a date for all-day events, in
/// the named zone when there is one, else in UTC.
pub open spec fn instant_of(timestamp: i64, tz: Option<String>, all_day: bool) -> EventInstant {
    if all_day {
        EventInstant::Date { timestamp }
    } else {
        match named_zone(tz) {
            Some(z) => EventInstant::Zoned { timestamp, zone: z },
            None => EventInstant::Utc { timestamp },
        }
    }
}

/// A Proton event read into calendar terms.
#[derive(Debug, Clone)]
pub struct EventParts {
    /// The one-event calendar text.
    pub ics: String,
    /// The event's UID.
    pub uid: String,
    /// The occurrence this event overrides, for exceptions of a series.
    pub recurrence: Option<EventInstant>,
    /// The sequence number.
    pub sequence: Option<i32>,
    /// When the event was last modified (Unix seconds).
    pub last_modified: Option<i64>,
    /// The reminders, in minutes before the start.
    pub reminders: Vec<i64>,
    /// The Proton event ID, kept as the item reference.
    pub item_id: String,
}

/// What a Proton event reads as, given its decrypted cards.
pub open spec fn parts_match(raw: &RawEvent, cards: Seq<Seq<char>>, p: EventParts) -> bool {
    &&& event_text(raw, cards) == Ok::<Seq<char>, MappingError>(p.ics@)
    &&& p.uid == raw.uid
    &&& p.recurrence == match raw.recurrence_id {
        Some(rid) => Some(instant_of(rid, raw.start_timezone, raw.full_day != 0)),
        None => None,
    }
    &&& p.sequence == match raw.sequence {
        Some(n) => Some(clamped_sequence(n)),
        None => None,
    }
    &&& p.last_modified == raw.modify_time
    &&& p.reminders@ == match raw.notifications {
        Some(ns) => reminders_of(ns@),
        None => Seq::<i64>::empty(),
    }
    &&& p.item_id == raw.id
}

/// The zone a time is written in (see [`named_zone`]).
fn zone_for(tz: &Option<String>) -> (r: Option<String>)
    ensures
        r == named_zone(*tz),
{
    match tz {
        Some(z) => {
            let upper = upper_chars(&chars_of(z.as_str()));
            if chars_equal_str(&upper, "UTC") {
                None
            } else {
                Some(z.clone())
            }
        },
        None => None,
    }
}

/// A date-time property line (see [`time_property`]).
pub fn format_time_property(name: &str, timestamp: i64, tz: &Option<String>, all_day: bool) -> (r:
    Result<String, MappingError>)
    ensures
        text_result(r) == time_property(name@, timestamp, *tz, all_day),
{
    let mut out = chars_of(name);
    if all_day {
        match utc_date(timestamp) {
            Some(date) => {
                extend_str(&mut out, ";VALUE=DATE:");
                extend_str(&mut out, date.as_str());
                return Ok(string_of(&out));
            },
            None => {
                return Err(MappingError::TimestampOutOfRange { timestamp });
            },
        }
    }
    match zone_for(tz) {
        Some(zone) => {
            match local_date_time(timestamp, zone.as_str()) {
                Some(local) => {
                    extend_str(&mut out, ";TZID=");
                    extend_str(&mut out, zone.as_str());
                    extend_str(&mut out, ":");
                    extend_str(&mut out, local.as_str());
                    Ok(string_of(&out))
                },
                None => {
                    if utc_date_time(timestamp).is_none() {
                        Err(MappingError::TimestampOutOfRange { timestamp })
                    } else {
                        Err(MappingError::UnknownTimezone { zone })
                    }
                },
            }
        },
        None => {
            match utc_date_time(timestamp) {
                Some(utc) => {
                    extend_str(&mut out, ":");
                    extend_str(&mut out, utc.as_str());
                    Ok(string_of(&out))
                },
                None => Err(MappingError::TimestampOutOfRange { timestamp }),
            }
        },
    }
}

/// How a timestamp of the event is stated (see [`instant_of`]).
pub fn event_instant(timestamp: i64, tz: &Option<String>, all_day: bool) -> (r: EventInstant)
    ensures
        r == instant_of(timestamp, *tz, all_day),
{
    if all_day {
        EventInstant::Date { timestamp }
    } else {
        match zone_for(tz) {
            Some(zone) => EventInstant::Zoned { timestamp, zone },
            None => EventInstant::Utc { timestamp },
        }
    }
}

/// `text` with every leading copy of `p` removed (see [`trim_leading`]).
fn trim_leading_chars(text: &Vec<char>, p: &Vec<char>) -> (r: Vec<char>)
    requires
        p@.len() > 0,
    ensures
        r@ == trim_leading(text@, p@),
{
    let mut start: usize = 0;
    assert(text@.skip(0) =~= text@);
    while p.len() <= text.len() - start && starts_with_at(text, p, start)
        invariant
            p@.len() > 0,
            start <= text.len(),
            trim_leading(text@, p@) == trim_leading(text@.skip(start as int), p@),
        decreases text.len() - start,
    {
        assert(text@.skip(start as int).skip(p@.len() as int) =~= text@.skip(start + p@.len()));
        start = start + p.len();
    }
    let r = sub_chars(text, start, text.len());
    assert(r@ =~= text@.skip(start as int));
    r
}

/// Whether `p` occurs in `text` at `start`.
fn starts_with_at(text: &Vec<char>, p: &Vec<char>, start: usize) -> (r: bool)
    requires
        start + p.len() <= text.len(),
    ensures
        r == has_prefix(text@.skip(start as int), p@),
{
    let mut i: usize = 0;
    while i < p.len()
        invariant
            start + p.len() <= text.len(),
            i <= p.len(),
            forall|j: int| 0 <= j < i ==> text@[start + j] == p@[j],
        decreases p.len() - i,
    {
        if text[start + i] != p[i] {
            assert(text@.skip(start as int).take(p@.len() as int)[i as int] != p@[i as int]);
            return false;
        }
        i = i + 1;
    }
    assert(text@.skip(start as int).take(p@.len() as int) =~= p@);
    true
}

/// Adds the EXDATE lines of the event to the table (see [`with_exdates`]).
fn add_exdates(t: &mut PropertyTable, raw: &RawEvent, all_day: bool) -> (r: Result<(), MappingError>)
    requires
        old(t).well_formed(),
    ensures
        final(t).well_formed(),
        match r {
            Ok(()) => with_exdates(old(t).view(), raw.exdates@, raw.start_timezone, all_day) == Ok::<
                Seq<Entry>,
                MappingError,
            >(final(t).view()),
            Err(e) => with_exdates(old(t).view(), raw.exdates@, raw.start_timezone, all_day)
                == Err::<Seq<Entry>, MappingError>(e),
        },
{
    let ghost start = t.view();
    let name = chars_of("EXDATE");
    let mut i: usize = 0;
    while i < raw.exdates.len()
        invariant
            i <= raw.exdates.len(),
            t.well_formed(),
            start == old(t).view(),
            name@ == "EXDATE"@,
            with_exdates(start, raw.exdates@.take(i as int), raw.start_timezone, all_day) == Ok::<
                Seq<Entry>,
                MappingError,
            >(t.view()),
        decreases raw.exdates.len() - i,
    {
        assert(raw.exdates@.take(i + 1).drop_last() =~= raw.exdates@.take(i as int));
        assert(raw.exdates@.take(i + 1).last() == raw.exdates@[i as int]);
        match format_time_property("EXDATE", raw.exdates[i], &raw.start_timezone, all_day) {
            Ok(line) => {
                let chars = chars_of(line.as_str());
                t.add(&name, chars);
            },
            Err(e) => {
                assert(with_exdates(start, raw.exdates@.take(i + 1), raw.start_timezone, all_day)
                    == Err::<Seq<Entry>, MappingError>(e));
                proof {
                    lemma_exdates_error(start, raw.exdates@, raw.start_timezone, all_day, i + 1);
                }
                return Err(e);
            },
        }
        i = i + 1;
    }
    assert(raw.exdates@.take(raw.exdates.len() as int) =~= raw.exdates@);
    Ok(())
}

/// An error in the EXDATEs seen so far is the error of all of them.
proof fn lemma_exdates_error(
    t: Seq<Entry>,
    exdates: Seq<i64>,
    tz: Option<String>,
    all_day: bool,
    k: int,
)
    requires
        0 <= k <= exdates.len(),
        with_exdates(t, exdates.take(k), tz, all_day) is Err,
    ensures
        with_exdates(t, exdates, tz, all_day) == with_exdates(t, exdates.take(k), tz, all_day),
    decreases exdates.len() - k,
{
    if k < exdates.len() {
        assert(exdates.take(k + 1).drop_last() =~= exdates.take(k));
        lemma_exdates_error(t, exdates, tz, all_day, k + 1);
    } else {
        assert(exdates.take(k) =~= exdates);
    }
}

/// The properties taken from the clear metadata of a Proton event (see
/// [`base_properties`]).
fn base_table(raw: &RawEvent) -> (r: Result<PropertyTable, MappingError>)
    ensures
        match r {
            Ok(t) => t.well_formed() && base_properties(raw) == Ok::<Seq<Entry>, MappingError>(
                t.view(),
            ),
            Err(e) => base_properties(raw) == Err::<Seq<Entry>, MappingError>(e),
        },
{
    let all_day = raw.full_day != 0;
    if raw.uid.as_str().is_empty() {
        return Err(MappingError::MissingUid { event_id: raw.id.clone() });
    }
    let mut t = PropertyTable::new();
    let mut uid_line = chars_of("UID:");
    extend_str(&mut uid_line, raw.uid.as_str());
    t.set(&chars_of("UID"), uid_line);
    let start = match format_time_property("DTSTART", raw.start_time, &raw.start_timezone, all_day) {
        Ok(l) => l,
        Err(e) => {
            return Err(e);
        },
    };
    t.set(&chars_of("DTSTART"), chars_of(start.as_str()));
    let end = match format_time_property("DTEND", raw.end_time, &raw.end_timezone, all_day) {
        Ok(l) => l,
        Err(e) => {
            return Err(e);
        },
    };
    t.set(&chars_of("DTEND"), chars_of(end.as_str()));
    match &raw.rrule {
        Some(rule) => {
            if !rule.as_str().is_empty() {
                proof {
                    reveal_strlit("RRULE:");
                }
                let trimmed = trim_leading_chars(&chars_of(rule.as_str()), &chars_of("RRULE:"));
                let mut line = chars_of("RRULE:");
                extend_chars(&mut line, &trimmed);
                t.set(&chars_of("RRULE"), line);
            }
        },
        None => {},
    }
    match raw.sequence {
        Some(n) => {
            let mut line = chars_of("SEQUENCE:");
            push_signed_decimal(&mut line, n);
            t.set(&chars_of("SEQUENCE"), line);
        },
        None => {},
    }
    match raw.recurrence_id {
        Some(rid) => {
            match format_time_property("RECURRENCE-ID", rid, &raw.start_timezone, all_day) {
                Ok(l) => {
                    t.set(&chars_of("RECURRENCE-ID"), chars_of(l.as_str()));
                },
                Err(e) => {
                    return Err(e);
                },
            }
        },
        None => {},
    }
    match add_exdates(&mut t, raw, all_day) {
        Ok(()) => Ok(t),
        Err(e) => Err(e),
    }
}

/// Whether a property name is one of the given literal names.
fn name_is(name: &Vec<char>, literal: &str) -> (r: bool)
    ensures
        r == (name@ == literal@),
{
    chars_equal_str(name, literal)
}

/// Merges one card line into the table (see [`merge_line`]).
fn merge_card_line(t: &mut PropertyTable, line: &String)
    requires
        old(t).well_formed(),
    ensures
        final(t).well_formed(),
        final(t).view() == merge_line(old(t).view(), line@),
{
    let name_text = property_name(line.as_str());
    let name = chars_of(name_text.as_str());
    if name.len() == 0 || name_is(&name, "LAST-MODIFIED") || name_is(&name, "CREATED") {
        return;
    }
    let chars = chars_of(line.as_str());
    if name_is(&name, "ATTENDEE") || name_is(&name, "EXDATE") || name_is(&name, "RDATE")
        || name_is(&name, "ATTACH") {
        t.add(&name, chars);
    } else {
        t.set(&name, chars);
    }
}

/// Reads a Proton event and its decrypted cards into calendar terms (see
/// [`parts_match`]); fails as [`event_text`] does.
pub fn event_from_payloads(raw: &RawEvent, payloads: &Vec<String>) -> (r: Result<
    EventParts,
    MappingError,
>)
    ensures
        match r {
            Ok(p) => parts_match(raw, views(payloads@), p),
            Err(e) => event_text(raw, views(payloads@)) == Err::<Seq<char>, MappingError>(e),
        },
{
    let mut t = match base_table(raw) {
        Ok(t) => t,
        Err(e) => {
            return Err(e);
        },
    };
    let ghost base = t.view();
    let ghost cards = views(payloads@);
    let mut i: usize = 0;
    while i < payloads.len()
        invariant
            i <= payloads.len(),
            t.well_formed(),
            cards == views(payloads@),
            t.view() == merge_cards(base, cards.take(i as int)),
        decreases payloads.len() - i,
    {
        let lines = extract_event_properties(payloads[i].as_str());
        let ghost before = t.view();
        let mut j: usize = 0;
        while j < lines.len()
            invariant
                j <= lines.len(),
                t.well_formed(),
                t.view() == merge_lines(before, views(lines@).take(j as int)),
            decreases lines.len() - j,
        {
            merge_card_line(&mut t, &lines[j]);
            j = j + 1;
            assert(views(lines@).take(j as int).drop_last() =~= views(lines@).take(j - 1));
        }
        assert(views(lines@).take(lines.len() as int) =~= views(lines@));
        i = i + 1;
        assert(cards.take(i as int).drop_last() =~= cards.take(i - 1));
    }
    assert(cards.take(payloads.len() as int) =~= cards);
    let ics = wrap_event(&t.lines());
    let recurrence = match raw.recurrence_id {
        Some(rid) => Some(event_instant(rid, &raw.start_timezone, raw.full_day != 0)),
        None => None,
    };
    let sequence = match raw.sequence {
        Some(n) => Some(if i32::MIN as i64 <= n && n <= i32::MAX as i64 {
            n as i32
        } else {
            i32::MAX
        }),
        None => None,
    };
    let reminders = match &raw.notifications {
        Some(ns) => reminders_from_notifications(ns),
        None => Vec::new(),
    };
    Ok(
        EventParts {
            ics,
            uid: raw.uid.clone(),
            recurrence,
            sequence,
            last_modified: raw.modify_time,
            reminders,
            item_id: raw.id.clone(),
        },
    )
}

/// The reminders of the notifications whose triggers can be read (see
/// [`reminders_of`]).
fn reminders_from_notifications(ns: &Vec<Notification>) -> (r: Vec<i64>)
    ensures
        r@ == reminders_of(ns@),
{
    let mut r: Vec<i64> = Vec::new();
    let mut i: usize = 0;
    while i < ns.len()
        invariant
            i <= ns.len(),
            r@ == reminders_of(ns@.take(i as int)),
        decreases ns.len() - i,
    {
        assert(ns@.take(i + 1).drop_last() =~= ns@.take(i as int));
        assert(ns@.take(i + 1).last() == ns@[i as int]);
        match reminder_from_trigger(ns[i].trigger.as_str()) {
            Some(m) => r.push(m),
            None => {},
        }
        i = i + 1;
    }
    assert(ns@.take(ns.len() as int) =~= ns@);
    r
}

#[verifier::external_type_specification]
#[verifier::external_body]
pub struct ExEvent(Event);

#[verifier::external_type_specification]
#[verifier::external_body]
pub struct ExEventError(EventError);

/// What `caldir-core` reads from a calendar text: for each of its VEVENTs,
/// in order, whether it converts to an event; `None` when the text does not
/// parse as a calendar.
pub uninterp spec fn caldir_vevents_convert(ics: Seq<char>) -> Option<Seq<bool>>;

/// `Event::from_ics_str`: the text is parsed as an iCalendar calendar and each
/// of its VEVENTs is converted in turn. Whether the text parses, how many
/// VEVENTs it holds and which of them convert is named by
/// [`caldir_vevents_convert`]; what each converted event holds is not stated.
#[verifier::external_body]
fn caldir_events_from_ics(ics: &str) -> (r: Result<Vec<Result<Event, EventError>>, EventError>)
    ensures
        r is Ok <==> caldir_vevents_convert(ics@) is Some,
        r matches Ok(events) ==> (caldir_vevents_convert(ics@) matches Some(flags) && events@.len()
            == flags.len() && forall|i: int|
            0 <= i < flags.len() ==> (#[trigger] events@[i] is Ok) == flags[i]),
{
    Event::from_ics_str(ics)
}

/// The one event of a calendar text, as `caldir-core` reads it: the text must
/// parse and hold exactly one VEVENT, which must convert.
pub fn single_event_from_ics(ics: &str) -> (r: Result<Event, MappingError>)
    ensures
        caldir_vevents_convert(ics@) is None <==> r == Err::<Event, MappingError>(
            MappingError::InvalidIcs,
        ),
        (caldir_vevents_convert(ics@) matches Some(flags) && flags.len() != 1) <==> (r matches Err(
            MappingError::EventCount { found },
        ) && (caldir_vevents_convert(ics@) matches Some(flags) && flags.len() == found)),
        (caldir_vevents_convert(ics@) matches Some(flags) && flags.len() == 1 && !flags[0]) <==> r
            == Err::<Event, MappingError>(MappingError::InvalidEvent),
        r is Ok <==> (caldir_vevents_convert(ics@) matches Some(flags) && flags.len() == 1
            && flags[0]),
{
    let mut events = match caldir_events_from_ics(ics) {
        Ok(events) => events,
        Err(_) => {
            return Err(MappingError::InvalidIcs);
        },
    };
    if events.len() != 1 {
        return Err(MappingError::EventCount { found: events.len() });
    }
    assert(events@[0] is Ok == caldir_vevents_convert(ics@)->0[0]);
    match events.pop() {
        Some(Ok(event)) => Ok(event),
        _ => Err(MappingError::InvalidEvent),
    }
}

/// A local event as the write path reads it.
#[derive(Debug, Clone)]
pub struct LocalEvent {
    /// The event as iCalendar text.
    pub ics: String,
    /// How many attendees it has.
    pub attendee_count: usize,
    /// Its STATUS value (`CONFIRMED`, ...).
    pub status: String,
    /// Its TRANSP value (`OPAQUE` or `TRANSPARENT`).
    pub availability: String,
    /// Its reminders, in minutes before the start.
    pub reminders: Vec<i64>,
}

/// The cards an event is written as.
#[derive(Debug, Clone)]
pub struct EventCards {
    /// Properties that are signed in the clear.
    pub shared_signed: String,
    /// Properties that are encrypted and signed.
    pub shared_encrypted: String,
    /// The per-calendar card (status and transparency), signed.
    pub calendar_signed: Option<String>,
}

/// Properties the server must read: they go to the clear, signed card.
pub open spec fn is_signed_name(name: Seq<char>) -> bool {
    ||| name == "DTSTART"@
    ||| name == "DTEND"@
    ||| name == "RRULE"@
    ||| name == "EXDATE"@
    ||| name == "RDATE"@
    ||| name == "ORGANIZER"@
    ||| name == "SEQUENCE"@
    ||| name == "UID"@
    ||| name == "DTSTAMP"@
    ||| name == "RECURRENCE-ID"@
}

/// Properties that are not written to the shared cards: the calendar card
/// holds STATUS and TRANSP, the server keeps the timestamps, and the item
/// reference is local.
pub open spec fn is_dropped_on_write(name: Seq<char>) -> bool {
    ||| name == "STATUS"@
    ||| name == "TRANSP"@
    ||| name == "LAST-MODIFIED"@
    ||| name == "CREATED"@
    ||| ascii_upper(name) == ascii_upper(ITEM_UID_PROPERTY@)
}

/// The lines that go to the signed card, in order.
pub open spec fn signed_part(lines: Seq<Seq<char>>) -> Seq<Seq<char>>
    decreases lines.len(),
{
    if lines.len() == 0 {
        Seq::empty()
    } else if is_signed_name(property_name_of(lines.last())) {
        signed_part(lines.drop_last()).push(lines.last())
    } else {
        signed_part(lines.drop_last())
    }
}

/// The lines that go to the encrypted card, in order: all that are neither
/// signed nor dropped.
pub open spec fn encrypted_part(lines: Seq<Seq<char>>) -> Seq<Seq<char>>
    decreases lines.len(),
{
    if lines.len() == 0 {
        Seq::empty()
    } else if !is_signed_name(property_name_of(lines.last())) && !is_dropped_on_write(
        property_name_of(lines.last()),
    ) {
        encrypted_part(lines.drop_last()).push(lines.last())
    } else {
        encrypted_part(lines.drop_last())
    }
}

/// The calendar card of an event: its STATUS and TRANSP.
pub open spec fn calendar_card(status: Seq<char>, availability: Seq<char>) -> Seq<char> {
    wrapped_event(seq!["STATUS:"@ + status, "TRANSP:"@ + availability])
}

/// Whether a property name is one of those of the signed card.
fn signed_name(name: &Vec<char>) -> (r: bool)
    ensures
        r == is_signed_name(name@),
{
    name_is(name, "DTSTART") || name_is(name, "DTEND") || name_is(name, "RRULE") || name_is(
        name,
        "EXDATE",
    ) || name_is(name, "RDATE") || name_is(name, "ORGANIZER") || name_is(name, "SEQUENCE")
        || name_is(name, "UID") || name_is(name, "DTSTAMP") || name_is(name, "RECURRENCE-ID")
}

/// Whether a property name is one that is not written to the shared cards.
fn dropped_name(name: &Vec<char>) -> (r: bool)
    ensures
        r == is_dropped_on_write(name@),
{
    if name_is(name, "STATUS") || name_is(name, "TRANSP") || name_is(name, "LAST-MODIFIED")
        || name_is(name, "CREATED") {
        return true;
    }
    let upper = upper_chars(name);
    let item = upper_chars(&chars_of(ITEM_UID_PROPERTY));
    crate::text::chars_equal(&upper, &item)
}

/// Splits a local event into the cards it is written as: the signed card
/// ([`signed_part`]), the encrypted card ([`encrypted_part`]) and the
/// calendar card ([`calendar_card`]). Events with attendees are refused.
pub fn cards_from_event(event: &LocalEvent) -> (r: Result<EventCards, MappingError>)
    ensures
        r is Err <==> event.attendee_count > 0,
        r matches Err(e) ==> e is AttendeesNotSupported,
        r matches Ok(c) ==> {
            &&& c.shared_signed@ == wrapped_event(signed_part(event_properties(event.ics@)))
            &&& c.shared_encrypted@ == wrapped_event(encrypted_part(event_properties(event.ics@)))
            &&& c.calendar_signed matches Some(card) && card@ == calendar_card(
                event.status@,
                event.availability@,
            )
        },
{
    if event.attendee_count > 0 {
        return Err(MappingError::AttendeesNotSupported);
    }
    let lines = extract_event_properties(event.ics.as_str());
    let ghost props = views(lines@);
    let mut signed: Vec<String> = Vec::new();
    let mut encrypted: Vec<String> = Vec::new();
    let mut i: usize = 0;
    while i < lines.len()
        invariant
            i <= lines.len(),
            props == views(lines@),
            views(signed@) == signed_part(props.take(i as int)),
            views(encrypted@) == encrypted_part(props.take(i as int)),
        decreases lines.len() - i,
    {
        assert(props.take(i + 1).drop_last() =~= props.take(i as int));
        assert(props.take(i + 1).last() == lines@[i as int]@);
        let name_text = property_name(lines[i].as_str());
        let name = chars_of(name_text.as_str());
        let ghost s0 = views(signed@);
        let ghost e0 = views(encrypted@);
        if signed_name(&name) {
            signed.push(lines[i].clone());
            assert(views(signed@) =~= s0.push(lines@[i as int]@));
        } else if !dropped_name(&name) {
            encrypted.push(lines[i].clone());
            assert(views(encrypted@) =~= e0.push(lines@[i as int]@));
        }
        i = i + 1;
    }
    assert(props.take(lines.len() as int) =~= props);
    let mut status_line = chars_of("STATUS:");
    extend_str(&mut status_line, event.status.as_str());
    let mut transp_line = chars_of("TRANSP:");
    extend_str(&mut transp_line, event.availability.as_str());
    let mut calendar: Vec<String> = Vec::new();
    calendar.push(string_of(&status_line));
    calendar.push(string_of(&transp_line));
    assert(views(calendar@) =~= seq!["STATUS:"@ + event.status@, "TRANSP:"@ + event.availability@]);
    Ok(
        EventCards {
            shared_signed: wrap_event(&signed),
            shared_encrypted: wrap_event(&encrypted),
            calendar_signed: Some(wrap_event(&calendar)),
        },
    )
}

/// The Proton notification kind of a reminder.
pub const REMINDER_NOTIFICATION: u8 = 1;

/// The notifications a local event is written with: one per reminder, in
/// order, each of kind 1 with the trigger of [`trigger_text`].
pub fn notifications_from_event(event: &LocalEvent) -> (r: Vec<Notification>)
    ensures
        r@.len() == event.reminders@.len(),
        forall|i: int|
            0 <= i < r@.len() ==> r@[i].kind == REMINDER_NOTIFICATION && r@[i].trigger@
                == trigger_text(event.reminders@[i]),
{
    let mut r: Vec<Notification> = Vec::new();
    let mut i: usize = 0;
    while i < event.reminders.len()
        invariant
            i <= event.reminders.len(),
            r@.len() == i,
            forall|j: int|
                0 <= j < i ==> r@[j].kind == REMINDER_NOTIFICATION && r@[j].trigger@
                    == trigger_text(event.reminders@[j]),
        decreases event.reminders.len() - i,
    {
        r.push(
            Notification {
                kind: REMINDER_NOTIFICATION,
                trigger: trigger_from_reminder(event.reminders[i]),
            },
        );
        i = i + 1;
    }
    r
}

proof fn lemma_parts_are_plain(props: Seq<Seq<char>>)
    requires
        forall|i: int| 0 <= i < props.len() ==> is_plain_property(#[trigger] props[i]),
    ensures
        forall|i: int|
            0 <= i < signed_part(props).len() ==> is_plain_property(#[trigger] signed_part(props)[i]),
        forall|i: int|
            0 <= i < encrypted_part(props).len() ==> is_plain_property(
                #[trigger] encrypted_part(props)[i],
            ),
    decreases props.len(),
{
    if props.len() > 0 {
        let init = props.drop_last();
        assert forall|i: int| 0 <= i < init.len() implies is_plain_property(#[trigger] init[i]) by {
            assert(init[i] == props[i]);
        }
        let last = props.last();
        assert(is_plain_property(props[props.len() - 1]));
        lemma_parts_are_plain(init);
        let s0 = signed_part(init);
        let e0 = encrypted_part(init);
        assert forall|i: int|
            0 <= i < signed_part(props).len() implies is_plain_property(
                #[trigger] signed_part(props)[i],
            ) by {
            if i < s0.len() {
                assert(signed_part(props)[i] == s0[i]);
            } else {
                assert(signed_part(props)[i] == last);
            }
        }
        assert forall|i: int|
            0 <= i < encrypted_part(props).len() implies is_plain_property(
                #[trigger] encrypted_part(props)[i],
            ) by {
            if i < e0.len() {
                assert(encrypted_part(props)[i] == e0[i]);
            } else {
                assert(encrypted_part(props)[i] == last);
            }
        }
    }
}

/// What the write path puts into the shared cards reads back unchanged: when
/// the properties of a local event are plain property lines, the properties
/// of its signed card are exactly its signed part and those of its encrypted
/// card exactly its encrypted part.
pub proof fn lemma_cards_read_back(ics: Seq<char>)
    requires
        forall|i: int|
            0 <= i < event_properties(ics).len() ==> is_plain_property(
                #[trigger] event_properties(ics)[i],
            ),
    ensures
        event_properties(wrapped_event(signed_part(event_properties(ics)))) == signed_part(
            event_properties(ics),
        ),
        event_properties(wrapped_event(encrypted_part(event_properties(ics)))) == encrypted_part(
            event_properties(ics),
        ),
{
    lemma_parts_are_plain(event_properties(ics));
    lemma_wrapped_event_reads_back(signed_part(event_properties(ics)));
    lemma_wrapped_event_reads_back(encrypted_part(event_properties(ics)));
}

/// An all-day line is the UTC date of the timestamp, whatever zone the event
/// names: `NAME;VALUE=DATE:` and the date, the same as with no zone at all.
pub proof fn lemma_all_day_line_ignores_zone(name: Seq<char>, timestamp: i64, tz: Option<String>)
    ensures
        time_property(name, timestamp, tz, true) == time_property(name, timestamp, None, true),
        chrono_timestamp_in_range(timestamp as int) ==> time_property(name, timestamp, tz, true)
            == Ok::<Seq<char>, MappingError>(name + ";VALUE=DATE:"@ + chrono_utc_date(
            timestamp as int,
        )),
{
}

proof fn lemma_with_exdates_keeps(
    t: Seq<Entry>,
    exdates: Seq<i64>,
    tz: Option<String>,
    name: Seq<char>,
)
    requires
        forall|k: int| 0 <= k < exdates.len() ==> chrono_timestamp_in_range(exdates[k] as int),
        name != "EXDATE"@,
    ensures
        with_exdates(t, exdates, tz, true) is Ok,
        lookup(with_exdates(t, exdates, tz, true)->Ok_0, name) == lookup(t, name),
    decreases exdates.len(),
{
    if exdates.len() > 0 {
        let init = exdates.drop_last();
        assert forall|k: int| 0 <= k < init.len() implies chrono_timestamp_in_range(
            init[k] as int,
        ) by {
            assert(init[k] == exdates[k]);
        }
        lemma_with_exdates_keeps(t, init, tz, name);
        let t2 = with_exdates(t, init, tz, true)->Ok_0;
        assert(chrono_timestamp_in_range(exdates[exdates.len() - 1] as int));
        let l = time_property("EXDATE"@, exdates.last(), tz, true)->Ok_0;
        let lines = match lookup(t2, "EXDATE"@) {
            Some(ls) => ls.push(l),
            None => seq![l],
        };
        lemma_put_lookup(t2, "EXDATE"@, lines, name);
    }
}

/// An all-day Proton event reads as dates: its DTSTART and DTEND lines are
/// `DTSTART;VALUE=DATE:` and `DTEND;VALUE=DATE:` followed by the UTC dates of
/// its start and end, whatever zones it names.
pub proof fn lemma_all_day_events_are_dated(raw: &RawEvent)
    requires
        raw.full_day != 0,
        raw.uid@.len() > 0,
        chrono_timestamp_in_range(raw.start_time as int),
        chrono_timestamp_in_range(raw.end_time as int),
        raw.recurrence_id is Some ==> chrono_timestamp_in_range(raw.recurrence_id->0 as int),
        forall|k: int|
            0 <= k < raw.exdates@.len() ==> chrono_timestamp_in_range(raw.exdates@[k] as int),
    ensures
        exists|lines: Seq<Seq<char>>|
            {
                &&& event_text(raw, Seq::empty()) == Ok::<Seq<char>, MappingError>(
                    wrapped_event(lines),
                )
                &&& lines.contains("DTSTART;VALUE=DATE:"@ + chrono_utc_date(raw.start_time as int))
                &&& lines.contains("DTEND;VALUE=DATE:"@ + chrono_utc_date(raw.end_time as int))
            },
{
    reveal_strlit("UID");
    reveal_strlit("DTSTART");
    reveal_strlit("DTEND");
    reveal_strlit("RRULE");
    reveal_strlit("SEQUENCE");
    reveal_strlit("RECURRENCE-ID");
    reveal_strlit("EXDATE");
    let ds = "DTSTART"@ + ";VALUE=DATE:"@ + chrono_utc_date(raw.start_time as int);
    let de = "DTEND"@ + ";VALUE=DATE:"@ + chrono_utc_date(raw.end_time as int);
    assert(ds =~= "DTSTART;VALUE=DATE:"@ + chrono_utc_date(raw.start_time as int)) by {
        reveal_strlit(";VALUE=DATE:");
        reveal_strlit("DTSTART;VALUE=DATE:");
    }
    assert(de =~= "DTEND;VALUE=DATE:"@ + chrono_utc_date(raw.end_time as int)) by {
        reveal_strlit(";VALUE=DATE:");
        reveal_strlit("DTEND;VALUE=DATE:");
    }
    let t0 = put(Seq::empty(), "UID"@, seq!["UID:"@ + raw.uid@]);
    let t1 = put(t0, "DTSTART"@, seq![ds]);
    let t2 = put(t1, "DTEND"@, seq![de]);
    lemma_put_lookup(t0, "DTSTART"@, seq![ds], "DTEND"@);
    lemma_put_lookup(t1, "DTEND"@, seq![de], "DTSTART"@);
    let t3 = match raw.rrule {
        Some(r) => if r@.len() > 0 {
            put(t2, "RRULE"@, seq!["RRULE:"@ + trim_leading(r@, "RRULE:"@)])
        } else {
            t2
        },
        None => t2,
    };
    if raw.rrule is Some && raw.rrule->0@.len() > 0 {
        let rl = seq!["RRULE:"@ + trim_leading(raw.rrule->0@, "RRULE:"@)];
        lemma_put_lookup(t2, "RRULE"@, rl, "DTSTART"@);
        lemma_put_lookup(t2, "RRULE"@, rl, "DTEND"@);
    }
    let t4 = match raw.sequence {
        Some(n) => put(t3, "SEQUENCE"@, seq!["SEQUENCE:"@ + signed_decimal(n)]),
        None => t3,
    };
    if raw.sequence is Some {
        let sl = seq!["SEQUENCE:"@ + signed_decimal(raw.sequence->0)];
        lemma_put_lookup(t3, "SEQUENCE"@, sl, "DTSTART"@);
        lemma_put_lookup(t3, "SEQUENCE"@, sl, "DTEND"@);
    }
    let t5 = match raw.recurrence_id {
        Some(rid) => put(
            t4,
            "RECURRENCE-ID"@,
            seq![time_property("RECURRENCE-ID"@, rid, raw.start_timezone, true)->Ok_0],
        ),
        None => t4,
    };
    if raw.recurrence_id is Some {
        let rl = seq![
            time_property("RECURRENCE-ID"@, raw.recurrence_id->0, raw.start_timezone, true)->Ok_0,
        ];
        lemma_put_lookup(t4, "RECURRENCE-ID"@, rl, "DTSTART"@);
        lemma_put_lookup(t4, "RECURRENCE-ID"@, rl, "DTEND"@);
    }
    lemma_with_exdates_keeps(t5, raw.exdates@, raw.start_timezone, "DTSTART"@);
    lemma_with_exdates_keeps(t5, raw.exdates@, raw.start_timezone, "DTEND"@);
    let t = with_exdates(t5, raw.exdates@, raw.start_timezone, true)->Ok_0;
    assert(base_properties(raw) == Ok::<Seq<Entry>, MappingError>(t));
    assert(merge_cards(t, Seq::empty()) == t);
    let lines = all_lines(t);
    assert(lookup(t, "DTSTART"@) == Some(seq![ds]));
    assert(lookup(t, "DTEND"@) == Some(seq![de]));
    lemma_lookup_entry(t, "DTSTART"@);
    let i = choose|i: int| 0 <= i < t.len() && t[i].1 == lookup(t, "DTSTART"@)->0;
    lemma_entry_lines_listed(t, i, 0);
    lemma_lookup_entry(t, "DTEND"@);
    let j = choose|j: int| 0 <= j < t.len() && t[j].1 == lookup(t, "DTEND"@)->0;
    lemma_entry_lines_listed(t, j, 0);
    assert(event_text(raw, Seq::empty()) == Ok::<Seq<char>, MappingError>(wrapped_event(lines)));
}

/// The notifications whose triggers read as reminders.
pub open spec fn readable_notification() -> spec_fn(Notification) -> bool {
    |n: Notification| trigger_minutes(n.trigger@) is Some
}

/// The reminders of an event are one per notification whose trigger reads,
/// in the order of the notifications: as many as there are such
/// notifications, the k-th being the minutes of the k-th of them.
pub proof fn lemma_reminders_follow_notifications(ns: Seq<Notification>)
    ensures
        reminders_of(ns).len() == ns.filter(readable_notification()).len(),
        forall|k: int|
            0 <= k < reminders_of(ns).len() ==> #[trigger] reminders_of(ns)[k] == trigger_minutes(
                ns.filter(readable_notification())[k].trigger@,
            )->0,
    decreases ns.len(),
{
    reveal(Seq::filter);
    if ns.len() > 0 {
        lemma_reminders_follow_notifications(ns.drop_last());
        let prev = reminders_of(ns.drop_last());
        let f = ns.drop_last().filter(readable_notification());
        if trigger_minutes(ns.last().trigger@) is Some {
            assert(ns.filter(readable_notification()) == f.push(ns.last()));
            assert forall|k: int| 0 <= k < reminders_of(ns).len() implies #[trigger] reminders_of(
                ns,
            )[k] == trigger_minutes(ns.filter(readable_notification())[k].trigger@)->0 by {
                if k < prev.len() {
                    assert(reminders_of(ns)[k] == prev[k]);
                }
            }
        } else {
            assert(ns.filter(readable_notification()) == f);
        }
    }
}

/// The properties the server reads (DTSTART, DTEND, RRULE, EXDATE, RDATE,
/// ORGANIZER, SEQUENCE, UID, DTSTAMP, RECURRENCE-ID) go to the signed card,
/// never to the encrypted one.
pub proof fn lemma_server_fields_are_signed(props: Seq<Seq<char>>, i: int)
    requires
        0 <= i < props.len(),
        ({
            let n = property_name_of(props[i]);
            ||| n == "DTSTART"@
            ||| n == "DTEND"@
            ||| n == "RRULE"@
            ||| n == "EXDATE"@
            ||| n == "RDATE"@
            ||| n == "ORGANIZER"@
            ||| n == "SEQUENCE"@
            ||| n == "UID"@
            ||| n == "DTSTAMP"@
            ||| n == "RECURRENCE-ID"@
        }),
    ensures
        signed_part(props).contains(props[i]),
        !encrypted_part(props).contains(props[i]),
{
    lemma_signed_part_keeps(props, i);
    lemma_encrypted_part_names(props);
}

/// Any other property goes to the encrypted card, never to the signed one,
/// unless it is one of those not written (STATUS, TRANSP, LAST-MODIFIED,
/// CREATED and the item reference).
pub proof fn lemma_other_fields_are_encrypted(props: Seq<Seq<char>>, i: int)
    requires
        0 <= i < props.len(),
        ({
            let n = property_name_of(props[i]);
            &&& n != "DTSTART"@
            &&& n != "DTEND"@
            &&& n != "RRULE"@
            &&& n != "EXDATE"@
            &&& n != "RDATE"@
            &&& n != "ORGANIZER"@
            &&& n != "SEQUENCE"@
            &&& n != "UID"@
            &&& n != "DTSTAMP"@
            &&& n != "RECURRENCE-ID"@
            &&& n != "STATUS"@
            &&& n != "TRANSP"@
            &&& n != "LAST-MODIFIED"@
            &&& n != "CREATED"@
            &&& ascii_upper(n) != "X-PROTON-ITEM"@
        }),
    ensures
        encrypted_part(props).contains(props[i]),
        !signed_part(props).contains(props[i]),
{
    reveal_strlit("X-PROTON-ITEM");
    assert(ITEM_UID_PROPERTY@ == "X-PROTON-ITEM"@);
    assert(ascii_upper("X-PROTON-ITEM"@) =~= "X-PROTON-ITEM"@);
    lemma_encrypted_part_keeps(props, i);
    lemma_signed_part_names(props);
}

proof fn lemma_signed_part_keeps(props: Seq<Seq<char>>, i: int)
    requires
        0 <= i < props.len(),
        is_signed_name(property_name_of(props[i])),
    ensures
        signed_part(props).contains(props[i]),
    decreases props.len(),
{
    if i == props.len() - 1 {
        assert(signed_part(props).last() == props[i]);
    } else {
        assert(props.drop_last()[i] == props[i]);
        lemma_signed_part_keeps(props.drop_last(), i);
        let prev = signed_part(props.drop_last());
        let j = choose|j: int| 0 <= j < prev.len() && prev[j] == props[i];
        assert(signed_part(props)[j] == props[i]);
    }
}

proof fn lemma_encrypted_part_keeps(props: Seq<Seq<char>>, i: int)
    requires
        0 <= i < props.len(),
        !is_signed_name(property_name_of(props[i])),
        !is_dropped_on_write(property_name_of(props[i])),
    ensures
        encrypted_part(props).contains(props[i]),
    decreases props.len(),
{
    if i == props.len() - 1 {
        assert(encrypted_part(props).last() == props[i]);
    } else {
        assert(props.drop_last()[i] == props[i]);
        lemma_encrypted_part_keeps(props.drop_last(), i);
        let prev = encrypted_part(props.drop_last());
        let j = choose|j: int| 0 <= j < prev.len() && prev[j] == props[i];
        assert(encrypted_part(props)[j] == props[i]);
    }
}

proof fn lemma_signed_part_names(props: Seq<Seq<char>>)
    ensures
        forall|k: int|
            0 <= k < signed_part(props).len() ==> is_signed_name(
                property_name_of(#[trigger] signed_part(props)[k]),
            ),
    decreases props.len(),
{
    if props.len() > 0 {
        lemma_signed_part_names(props.drop_last());
        let prev = signed_part(props.drop_last());
        assert forall|k: int| 0 <= k < signed_part(props).len() implies is_signed_name(
            property_name_of(#[trigger] signed_part(props)[k]),
        ) by {
            if k < prev.len() {
                assert(signed_part(props)[k] == prev[k]);
            }
        }
    }
}

proof fn lemma_encrypted_part_names(props: Seq<Seq<char>>)
    ensures
        forall|k: int|
            0 <= k < encrypted_part(props).len() ==> !is_signed_name(
                property_name_of(#[trigger] encrypted_part(props)[k]),
            ),
    decreases props.len(),
{
    if props.len() > 0 {
        lemma_encrypted_part_names(props.drop_last());
        let prev = encrypted_part(props.drop_last());
        assert forall|k: int| 0 <= k < encrypted_part(props).len() implies !is_signed_name(
            property_name_of(#[trigger] encrypted_part(props)[k]),
        ) by {
            if k < prev.len() {
                assert(encrypted_part(props)[k] == prev[k]);
            }
        }
    }
}

} // verus!
