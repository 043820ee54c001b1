use caldir_provider_proton::calendar::{
    calendar_group_key, event_is_organizer, event_permissions, group_needs_session_key,
    guard_mutation, next_sequence, normalize_color, payload_is_encrypted, payload_is_signed, position_of,
    select_calendar_key, select_member, shared_group_key, sorted_by_id, split_window, sync_event_id,
    AttendeesInfo, CalendarMember, CalendarRecord, EventPayload, KeyRole, MutationError,
    RawEvent,
};

fn member(id: &str, address_id: &str, name: &str, color: &str, permissions: Option<u32>) -> CalendarMember {
    CalendarMember {
        id: id.to_string(),
        address_id: address_id.to_string(),
        name: name.to_string(),
        color: color.to_string(),
        permissions,
    }
}

fn calendar(id: &str, kind: u32, flags: u32, name: &str, color: &str, members: Vec<CalendarMember>) -> CalendarRecord {
    CalendarRecord {
        id: id.to_string(),
        kind,
        flags,
        name: name.to_string(),
        color: color.to_string(),
        members,
    }
}

fn raw_event() -> RawEvent {
    RawEvent {
        id: "event-id".into(),
        start_time: 1_783_245_600,
        end_time: 1_783_249_200,
        start_timezone: None,
        end_timezone: None,
        full_day: 0,
        uid: "uid@example.test".into(),
        rrule: None,
        recurrence_id: None,
        exdates: Vec::new(),
        modify_time: None,
        sequence: None,
        permissions: None,
        is_organizer: None,
        shared_key_packet: None,
        address_key_packet: None,
        calendar_key_packet: None,
        shared_events: Vec::new(),
        calendar_events: Vec::new(),
        attendees_events: Vec::new(),
        attendees_info: AttendeesInfo { attendees: Vec::new() },
        notifications: None,
    }
}

#[test]
fn split_window_preserves_the_requested_range() {
    assert_eq!(split_window(100, 200), Some([(100, 150), (150, 200)]));
    assert_eq!(split_window(100, 201), Some([(100, 150), (150, 201)]));
}

#[test]
fn split_window_stops_at_one_second() {
    assert_eq!(split_window(100, 101), None);
    assert_eq!(split_window(100, 100), None);
}

#[test]
fn split_window_refuses_reversed_and_overflowing_windows() {
    assert_eq!(split_window(200, 100), None);
    assert_eq!(split_window(i64::MIN, i64::MAX), None);
    assert_eq!(split_window(-10, 10), Some([(-10, 0), (0, 10)]));
}

#[test]
fn split_halves_meet_and_cover_the_window() {
    let [a, b] = split_window(7, 1_000_003).unwrap();
    assert_eq!(a.0, 7);
    assert_eq!(b.1, 1_000_003);
    assert_eq!(a.1, b.0);
    assert!(a.1 - a.0 < 1_000_003 - 7 && b.1 - b.0 < 1_000_003 - 7);
}

#[test]
fn display_name_prefers_the_member_name() {
    let c = calendar("c", 0, 0, "Calendar", "#111111", vec![member("m", "a", "Mine", "#222222", None)]);
    assert_eq!(c.display_name(), Some("Mine"));
    assert_eq!(c.display_color(), Some("#222222"));
    let c = calendar("c", 0, 0, "Calendar", "#111111", vec![member("m", "a", "", "", None)]);
    assert_eq!(c.display_name(), Some("Calendar"));
    assert_eq!(c.display_color(), Some("#111111"));
    let c = calendar("c", 0, 0, "", "", Vec::new());
    assert_eq!(c.display_name(), None);
    assert_eq!(c.display_color(), None);
}

#[test]
fn read_only_follows_type_flags_and_permissions() {
    assert!(!calendar("c", 0, 0, "", "", Vec::new()).read_only());
    assert!(calendar("c", 1, 0, "", "", Vec::new()).read_only());
    assert!(calendar("c", 0, 16, "", "", Vec::new()).read_only());
    assert!(calendar("c", 0, 0, "", "", vec![member("m", "a", "", "", Some(15))]).read_only());
    assert!(!calendar("c", 0, 0, "", "", vec![member("m", "a", "", "", Some(63))]).read_only());
    assert!(!calendar("c", 0, 0, "", "", vec![member("m", "a", "", "", None)]).read_only());
}

#[test]
fn calendars_are_listed_by_id() {
    let sorted = sorted_by_id(vec![
        calendar("b", 0, 0, "second", "", Vec::new()),
        calendar("a", 0, 0, "first", "", Vec::new()),
        calendar("c", 0, 0, "third", "", Vec::new()),
        calendar("a", 0, 0, "first again", "", Vec::new()),
    ]);
    let names: Vec<&str> = sorted.iter().map(|c| c.name.as_str()).collect();
    assert_eq!(names, vec!["first", "first again", "second", "third"]);
}

#[test]
fn mutation_is_refused_for_invitations() {
    let mut raw = raw_event();
    assert!(guard_mutation(&raw).is_ok());
    raw.is_organizer = Some(0);
    assert_eq!(guard_mutation(&raw), Err(MutationError::InvitationNotSupported));
    raw.is_organizer = Some(1);
    raw.attendees_info.attendees.push("{\"Email\":\"bob@example.test\"}".into());
    let error = guard_mutation(&raw).unwrap_err();
    assert_eq!(
        error.message(),
        "Proton attendee and invitation writes are not supported; this event was not changed"
    );
}

#[test]
fn next_sequence_takes_the_greater_and_adds_one() {
    assert_eq!(next_sequence(0, None), 1);
    assert_eq!(next_sequence(2, Some(5)), 6);
    assert_eq!(next_sequence(7, Some(5)), 8);
    assert_eq!(next_sequence(0, Some(i64::MAX)), i32::MAX);
    assert_eq!(next_sequence(i32::MAX, None), i32::MAX);
    assert_eq!(next_sequence(-5, Some(-9)), -4);
}

#[test]
fn member_and_key_selection() {
    let members = vec![member("m1", "addr-x", "", "", None), member("m2", "addr-b", "", "", None)];
    let addresses = vec!["addr-a".to_string(), "addr-b".to_string()];
    assert_eq!(select_member(&members, &addresses), Some((1, 1)));
    assert_eq!(select_member(&members, &vec!["none".to_string()]), None);
    assert_eq!(position_of(&addresses, "addr-b"), Some(1));
    assert_eq!(position_of(&addresses, "addr-c"), None);
    assert_eq!(select_calendar_key(&vec![0, 1, 3, 2]), Some(2));
    assert_eq!(select_calendar_key(&vec![0, 1]), Some(0));
    assert_eq!(select_calendar_key(&Vec::new()), None);
}

#[test]
fn key_packets_of_card_groups() {
    let mut raw = raw_event();
    raw.address_key_packet = Some("address".into());
    let shared = shared_group_key(&raw);
    assert_eq!(shared.packet.as_deref(), Some("address"));
    assert_eq!(shared.key, KeyRole::Address);
    raw.shared_key_packet = Some("shared".into());
    let shared = shared_group_key(&raw);
    assert_eq!(shared.packet.as_deref(), Some("shared"));
    assert_eq!(shared.key, KeyRole::Calendar);
    let calendar_key = calendar_group_key(&raw);
    assert_eq!(calendar_key.packet.as_deref(), Some("shared"));
    raw.calendar_key_packet = Some("calendar".into());
    assert_eq!(calendar_group_key(&raw).packet.as_deref(), Some("calendar"));
}

#[test]
fn card_kinds() {
    assert!(!payload_is_encrypted(0) && !payload_is_signed(0));
    assert!(payload_is_encrypted(1) && !payload_is_signed(1));
    assert!(!payload_is_encrypted(2) && payload_is_signed(2));
    assert!(payload_is_encrypted(3) && payload_is_signed(3));
    let card = |kind: u8| EventPayload { kind, data: String::new(), signature: None, author: String::new() };
    assert!(!group_needs_session_key(&vec![card(0), card(2)]));
    assert!(group_needs_session_key(&vec![card(2), card(3)]));
}

#[test]
fn write_flags_default_when_the_server_gives_none() {
    let mut raw = raw_event();
    assert_eq!(event_permissions(&raw), 63);
    assert_eq!(event_is_organizer(&raw), 1);
    raw.permissions = Some(7);
    raw.is_organizer = Some(0);
    assert_eq!(event_permissions(&raw), 7);
    assert_eq!(event_is_organizer(&raw), 0);
}

#[test]
fn colours_are_normalised() {
    assert_eq!(normalize_color("#8080FF"), "#8080ff");
    assert_eq!(normalize_color("ABCDEF"), "#abcdef");
    assert_eq!(normalize_color(""), "#");
}

#[test]
fn created_event_ids_are_read_from_the_first_path_present() {
    let id = |s: &str| Some(s.to_string());
    assert_eq!(sync_event_id(id("a"), id("b"), id("c")), id("a"));
    assert_eq!(sync_event_id(None, id("b"), id("c")), id("b"));
    assert_eq!(sync_event_id(None, None, id("c")), id("c"));
    assert_eq!(sync_event_id(None, None, None), None);
}
