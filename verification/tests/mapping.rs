use caldir_core::{Event, EventTime, EventUid, Reminder, XProperty};
use caldir_provider_proton::calendar::{AttendeesInfo, Notification, RawEvent};
use caldir_provider_proton::constants::ITEM_UID_PROPERTY;
use caldir_provider_proton::duration::{
    parse_iso_duration_minutes, reminder_from_trigger, trigger_from_reminder,
};
use caldir_provider_proton::ics::{extract_event_properties, property_name};
use caldir_provider_proton::mapping::{
    cards_from_event, event_from_payloads, format_time_property, notifications_from_event,
    single_event_from_ics, LocalEvent, MappingError,
};
use chrono::NaiveDateTime;

fn raw_event() -> RawEvent {
    RawEvent {
        id: "event-id".into(),
        start_time: 1_783_245_600,
        end_time: 1_783_249_200,
        start_timezone: Some("Europe/London".into()),
        end_timezone: Some("Europe/London".into()),
        full_day: 0,
        uid: "uid@example.test".into(),
        rrule: None,
        recurrence_id: None,
        exdates: Vec::new(),
        modify_time: Some(1_783_245_000),
        sequence: Some(3),
        permissions: Some(63),
        is_organizer: Some(1),
        shared_key_packet: None,
        address_key_packet: None,
        calendar_key_packet: None,
        shared_events: Vec::new(),
        calendar_events: Vec::new(),
        attendees_events: Vec::new(),
        attendees_info: AttendeesInfo { attendees: Vec::new() },
        notifications: Some(vec![Notification {
            kind: 1,
            trigger: "-PT15M".into(),
        }]),
    }
}

fn local_event(event: &Event) -> LocalEvent {
    LocalEvent {
        ics: event.to_ics_string(),
        attendee_count: event.attendees.len(),
        status: event.status.as_ics_str().to_string(),
        availability: event.availability.as_ics_str().to_string(),
        reminders: event.reminders.iter().map(|r| r.minutes_before_start).collect(),
    }
}

#[test]
fn merges_fragment_cards_with_metadata() {
    let fragment = "BEGIN:VCALENDAR\r\nBEGIN:VEVENT\r\nSUMMARY:Encrypted title\r\nDESCRIPTION:Secret\r\nEND:VEVENT\r\nEND:VCALENDAR\r\n";
    let parts = event_from_payloads(&raw_event(), &vec![fragment.to_string()]).unwrap();
    let event = single_event_from_ics(&parts.ics).unwrap();
    assert_eq!(event.summary.as_deref(), Some("Encrypted title"));
    assert_eq!(event.description.as_deref(), Some("Secret"));
    assert_eq!(parts.uid.as_str(), "uid@example.test");
    assert_eq!(parts.sequence, Some(3));
    assert_eq!(parts.reminders, vec![Reminder::from_minutes(15).minutes_before_start]);
    assert_eq!(parts.item_id.as_str(), "event-id");
}

#[test]
fn merged_event_text_is_ordered_by_property_name() {
    let fragment = "BEGIN:VCALENDAR\r\nBEGIN:VEVENT\r\nSUMMARY:Encrypted title\r\nLAST-MODIFIED:20260101T000000Z\r\nDESCRIPTION:Secret\r\nEND:VEVENT\r\nEND:VCALENDAR\r\n";
    let parts = event_from_payloads(&raw_event(), &vec![fragment.to_string()]).unwrap();
    assert_eq!(
        parts.ics,
        "BEGIN:VCALENDAR\r\nVERSION:2.0\r\nPRODID:CALDIR-PROTON\r\nBEGIN:VEVENT\r\n\
DESCRIPTION:Secret\r\n\
DTEND;TZID=Europe/London:20260705T120000\r\n\
DTSTART;TZID=Europe/London:20260705T110000\r\n\
SEQUENCE:3\r\n\
SUMMARY:Encrypted title\r\n\
UID:uid@example.test\r\n\
END:VEVENT\r\nEND:VCALENDAR\r\n"
    );
    assert_eq!(parts.last_modified, Some(1_783_245_000));
}

#[test]
fn later_cards_replace_single_properties_and_extend_lists() {
    let first = "BEGIN:VEVENT\r\nSUMMARY:First\r\nATTENDEE:mailto:a@example.test\r\nEND:VEVENT\r\n";
    let second = "BEGIN:VEVENT\r\nSUMMARY:Second\r\nATTENDEE:mailto:b@example.test\r\nEND:VEVENT\r\n";
    let mut raw = raw_event();
    raw.start_timezone = None;
    raw.end_timezone = Some("utc".into());
    raw.sequence = None;
    let parts = event_from_payloads(&raw, &vec![first.to_string(), second.to_string()]).unwrap();
    assert!(parts.ics.contains("ATTENDEE:mailto:a@example.test\r\nATTENDEE:mailto:b@example.test\r\n"));
    assert!(parts.ics.contains("SUMMARY:Second\r\n"));
    assert!(!parts.ics.contains("SUMMARY:First"));
    assert!(parts.ics.contains("DTSTART:20260705T100000Z\r\n"));
    assert!(parts.ics.contains("DTEND:20260705T110000Z\r\n"));
    assert_eq!(parts.sequence, None);
}

#[test]
fn events_without_uid_are_refused() {
    let mut raw = raw_event();
    raw.uid = String::new();
    let error = event_from_payloads(&raw, &Vec::new()).unwrap_err();
    assert!(matches!(error, MappingError::MissingUid { .. }));
    assert_eq!(error.message(), "Proton event event-id has no UID");
}

#[test]
fn unknown_zones_and_out_of_range_times_are_refused() {
    let mut raw = raw_event();
    raw.start_timezone = Some("Mars/Olympus".into());
    let error = event_from_payloads(&raw, &Vec::new()).unwrap_err();
    assert_eq!(error.message(), "Unknown Proton timezone: Mars/Olympus");
    let error = format_time_property("DTSTART", i64::MAX, &None, false).unwrap_err();
    assert_eq!(error.message(), format!("Proton timestamp {} is out of range", i64::MAX));
}

#[test]
fn time_properties_are_formatted_per_kind() {
    assert_eq!(format_time_property("DTSTART", 0, &None, false).unwrap(), "DTSTART:19700101T000000Z");
    assert_eq!(format_time_property("DTSTART", 0, &Some("UTC".into()), false).unwrap(), "DTSTART:19700101T000000Z");
    assert_eq!(format_time_property("DTEND", 86_400, &None, true).unwrap(), "DTEND;VALUE=DATE:19700102");
    assert_eq!(
        format_time_property("EXDATE", 1_783_245_600, &Some("Europe/London".into()), false).unwrap(),
        "EXDATE;TZID=Europe/London:20260705T110000"
    );
}

#[test]
fn series_metadata_is_kept() {
    let mut raw = raw_event();
    raw.rrule = Some("RRULE:FREQ=WEEKLY".into());
    raw.exdates = vec![1_783_850_400, 1_784_455_200];
    raw.recurrence_id = Some(1_783_245_600);
    let parts = event_from_payloads(&raw, &Vec::new()).unwrap();
    assert!(parts.ics.contains("RRULE:FREQ=WEEKLY\r\n"));
    assert!(parts.ics.contains(
        "EXDATE;TZID=Europe/London:20260712T110000\r\nEXDATE;TZID=Europe/London:20260719T110000\r\n"
    ));
    assert!(parts.ics.contains("RECURRENCE-ID;TZID=Europe/London:20260705T110000\r\n"));
    assert!(parts.recurrence.is_some());
}

#[test]
fn a_text_must_hold_one_event() {
    let two = "BEGIN:VCALENDAR\r\nVERSION:2.0\r\nPRODID:X\r\nBEGIN:VEVENT\r\nUID:a\r\nDTSTART:20260705T100000Z\r\nEND:VEVENT\r\nBEGIN:VEVENT\r\nUID:b\r\nDTSTART:20260705T100000Z\r\nEND:VEVENT\r\nEND:VCALENDAR\r\n";
    let error = single_event_from_ics(two).unwrap_err();
    assert!(matches!(error, MappingError::EventCount { found: 2 }));
    assert_eq!(error.message(), "Expected one Proton VEVENT, found 2");
    let none = "BEGIN:VCALENDAR\r\nVERSION:2.0\r\nPRODID:X\r\nEND:VCALENDAR\r\n";
    assert!(matches!(single_event_from_ics(none).unwrap_err(), MappingError::EventCount { found: 0 }));
    let one = "BEGIN:VCALENDAR\r\nVERSION:2.0\r\nPRODID:X\r\nBEGIN:VEVENT\r\nUID:a\r\nDTSTART:20260705T100000Z\r\nSUMMARY:One\r\nEND:VEVENT\r\nEND:VCALENDAR\r\n";
    assert_eq!(single_event_from_ics(one).unwrap().summary.as_deref(), Some("One"));
}

#[test]
fn partitions_event_cards() {
    let mut event = Event::new(
        "Private",
        EventTime::DateTimeUtc(
            NaiveDateTime::parse_from_str("20260705T100000", "%Y%m%dT%H%M%S")
                .unwrap()
                .and_utc(),
        ),
    );
    event.uid = EventUid::new("uid@example.test");
    event.description = Some("Secret".into());
    event.x_properties.push(XProperty::new(ITEM_UID_PROPERTY, "remote"));
    let cards = cards_from_event(&local_event(&event)).unwrap();
    assert!(cards.shared_signed.contains("UID:uid@example.test"));
    assert!(cards.shared_encrypted.contains("SUMMARY:Private"));
    assert!(cards.shared_encrypted.contains("DESCRIPTION:Secret"));
    assert!(!cards.shared_encrypted.contains(ITEM_UID_PROPERTY));
}

#[test]
fn calendar_card_holds_status_and_transparency() {
    let event = Event::new(
        "Busy",
        EventTime::DateTimeUtc(
            NaiveDateTime::parse_from_str("20260705T100000", "%Y%m%dT%H%M%S")
                .unwrap()
                .and_utc(),
        ),
    );
    let local = local_event(&event);
    let cards = cards_from_event(&local).unwrap();
    assert_eq!(
        cards.calendar_signed.as_deref(),
        Some(format!(
            "BEGIN:VCALENDAR\r\nVERSION:2.0\r\nPRODID:CALDIR-PROTON\r\nBEGIN:VEVENT\r\nSTATUS:{}\r\nTRANSP:{}\r\nEND:VEVENT\r\nEND:VCALENDAR\r\n",
            local.status, local.availability
        ).as_str())
    );
    assert!(cards.shared_signed.contains("DTSTART:20260705T100000Z"));
    assert!(!cards.shared_encrypted.contains("DTSTART"));
}

#[test]
fn events_with_attendees_are_not_written() {
    let local = LocalEvent {
        ics: String::new(),
        attendee_count: 1,
        status: "CONFIRMED".into(),
        availability: "OPAQUE".into(),
        reminders: Vec::new(),
    };
    let error = cards_from_event(&local).unwrap_err();
    assert_eq!(error.message(), "Proton attendee and invitation writes are not supported");
}

#[test]
fn reminders_become_notifications() {
    let local = LocalEvent {
        ics: String::new(),
        attendee_count: 0,
        status: "CONFIRMED".into(),
        availability: "OPAQUE".into(),
        reminders: vec![10, 60, 1440, 10080, 0, 90],
    };
    let notifications = notifications_from_event(&local);
    let triggers: Vec<&str> = notifications.iter().map(|n| n.trigger.as_str()).collect();
    assert_eq!(triggers, vec!["-PT10M", "-PT1H", "-P1D", "-P1W", "-PT0S", "-PT1H30M"]);
    assert!(notifications.iter().all(|n| n.kind == 1));
}

#[test]
fn parses_notification_durations() {
    assert_eq!(
        reminder_from_trigger("-P1DT2H30M"),
        Some(Reminder::from_minutes(1_590).minutes_before_start)
    );
    assert_eq!(trigger_from_reminder(Reminder::from_minutes(120).minutes_before_start), "-PT2H");
}

#[test]
fn triggers_read_back_what_reminders_wrote() {
    for minutes in [0_i64, 1, 59, 60, 61, 1439, 1440, 2880, 10080, 10081, 20160, 123_456] {
        assert_eq!(reminder_from_trigger(&trigger_from_reminder(minutes)), Some(minutes));
    }
    assert_eq!(reminder_from_trigger(&trigger_from_reminder(-45)), Some(45));
}

#[test]
fn unusual_triggers() {
    assert_eq!(reminder_from_trigger("PT15M"), None);
    assert_eq!(reminder_from_trigger("-P2W"), Some(20160));
    assert_eq!(reminder_from_trigger("-PT90S"), None);
    assert_eq!(reminder_from_trigger("-PT120S"), Some(2));
    assert_eq!(reminder_from_trigger("-PT"), Some(0));
    assert_eq!(reminder_from_trigger("-P1X"), None);
}

#[test]
fn iso_durations_in_minutes() {
    assert_eq!(parse_iso_duration_minutes("P1DT2H30M"), Some(1590));
    assert_eq!(parse_iso_duration_minutes("P3W"), Some(30240));
    assert_eq!(parse_iso_duration_minutes("PT45M"), Some(45));
    assert_eq!(parse_iso_duration_minutes("PT60S"), Some(1));
    assert_eq!(parse_iso_duration_minutes("PT61S"), None);
    assert_eq!(parse_iso_duration_minutes("P2D"), Some(2880));
    assert_eq!(parse_iso_duration_minutes("1D"), None);
    assert_eq!(parse_iso_duration_minutes("PT1H1X"), None);
    assert_eq!(parse_iso_duration_minutes("P99999999999999999999W"), None);
}

#[test]
fn written_cards_read_back() {
    let mut event = Event::new(
        "Standup",
        EventTime::DateTimeUtc(
            NaiveDateTime::parse_from_str("20260705T100000", "%Y%m%dT%H%M%S")
                .unwrap()
                .and_utc(),
        ),
    );
    event.uid = EventUid::new("uid@example.test");
    event.location = Some("Room 1".into());
    let local = local_event(&event);
    let cards = cards_from_event(&local).unwrap();
    let properties = extract_event_properties(&local.ics);
    let signed = ["DTSTART", "DTEND", "RRULE", "EXDATE", "RDATE", "ORGANIZER", "SEQUENCE", "UID", "DTSTAMP", "RECURRENCE-ID"];
    let dropped = ["STATUS", "TRANSP", "LAST-MODIFIED", "CREATED", "X-PROTON-ITEM"];
    let expected_signed: Vec<String> = properties
        .iter()
        .filter(|line| signed.contains(&property_name(line).as_str()))
        .cloned()
        .collect();
    let expected_encrypted: Vec<String> = properties
        .iter()
        .filter(|line| {
            let name = property_name(line);
            !signed.contains(&name.as_str()) && !dropped.contains(&name.as_str())
        })
        .cloned()
        .collect();
    assert_eq!(extract_event_properties(&cards.shared_signed), expected_signed);
    assert_eq!(extract_event_properties(&cards.shared_encrypted), expected_encrypted);
    assert!(expected_encrypted.iter().any(|line| line == "LOCATION:Room 1"));
}
