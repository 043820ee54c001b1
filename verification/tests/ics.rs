use caldir_provider_proton::ics::{extract_event_properties, property_name, unfold_lines, wrap_event};

#[test]
fn folded_lines_are_joined() {
    let lines = unfold_lines("A:1\r\n B\n\tC\r\n\r\nD:2\n");
    assert_eq!(lines, vec!["A:1BC".to_string(), "D:2".to_string()]);
    assert_eq!(unfold_lines(" orphan\nX:1"), vec!["X:1".to_string()]);
}

#[test]
fn only_the_first_event_properties_are_read() {
    let ics = "BEGIN:VCALENDAR\r\nPRODID:X\r\nBEGIN:VEVENT\r\nSUMMARY:Hi\r\nBEGIN:VALARM\r\nTRIGGER:-PT5M\r\nEND:VALARM\r\nno colon\r\nDESCRIPTION:long\r\n  text\r\nEND:VEVENT\r\nBEGIN:VEVENT\r\nSUMMARY:Other\r\nEND:VEVENT\r\nEND:VCALENDAR\r\n";
    assert_eq!(
        extract_event_properties(ics),
        vec!["SUMMARY:Hi".to_string(), "DESCRIPTION:long text".to_string()]
    );
    assert!(extract_event_properties("SUMMARY:outside").is_empty());
}

#[test]
fn property_names_are_upper_case() {
    assert_eq!(property_name("dtstart;tzid=Europe/London:20260705T100000"), "DTSTART");
    assert_eq!(property_name("x-proton-item:abc"), "X-PROTON-ITEM");
    assert_eq!(property_name("plain"), "PLAIN");
    assert_eq!(property_name(":x"), "");
}

#[test]
fn wrapped_events_use_crlf() {
    assert_eq!(
        wrap_event(&vec!["UID:a".to_string(), "SUMMARY:b".to_string()]),
        "BEGIN:VCALENDAR\r\nVERSION:2.0\r\nPRODID:CALDIR-PROTON\r\nBEGIN:VEVENT\r\nUID:a\r\nSUMMARY:b\r\nEND:VEVENT\r\nEND:VCALENDAR\r\n"
    );
}
