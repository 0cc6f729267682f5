use calendar_mirror::clock::Instant;
use calendar_mirror::codec::collect_events;
use calendar_mirror::codec::decode;
use calendar_mirror::codec::decode_components;
use calendar_mirror::codec::decode_event;
use calendar_mirror::codec::encode;
use calendar_mirror::codec::fetch_caldav_events;
use calendar_mirror::codec::is_timed_event;
use calendar_mirror::codec::parse_ical_datetime;
use calendar_mirror::clock::FIRST_SECOND;
use calendar_mirror::clock::LAST_SECOND;
use calendar_mirror::codec::DecodeError;
use calendar_mirror::codec::EncodeError;
use calendar_mirror::codec::TimestampError;
use calendar_mirror::codec::Field;
use calendar_mirror::event::Event;
use calendar_mirror::record::describe_ical_event;
use calendar_mirror::record::get_ical_property;
use calendar_mirror::record::Component;
use calendar_mirror::record::Property;

const DAY: i64 = 1_704_067_200; // 2024-01-01T00:00:00Z

fn at(hour: i64, minute: i64) -> Instant {
    Instant { secs: DAY + hour * 3600 + minute * 60, nanos: 0 }
}

fn property(name: &str, value: &str) -> Property {
    Property { name: name.to_string(), value: value.to_string(), attributes: Vec::new() }
}

fn zoned(name: &str, zone: &str, value: &str) -> Property {
    Property {
        name: name.to_string(),
        value: value.to_string(),
        attributes: vec![("TZID".to_string(), zone.to_string())],
    }
}

fn vevent(properties: Vec<Property>) -> Component {
    Component { name: "VEVENT".to_string(), properties }
}

fn standup_component() -> Component {
    vevent(vec![
        property("UID", "uid-1"),
        property("SUMMARY", "Standup"),
        property("DTSTART", "20240101T100000Z"),
        property("DTEND", "20240101T103000Z"),
    ])
}

#[test]
fn new_york_winter_time_is_five_hours_behind_utc() {
    let start = zoned("DTSTART", "America/New_York", "20240101T100000");
    assert_eq!(parse_ical_datetime(&start), Ok(at(15, 0)));
    assert_eq!(at(15, 0).secs, 1_704_121_200);
}

#[test]
fn new_york_summer_time_is_four_hours_behind_utc() {
    let start = zoned("DTSTART", "America/New_York", "20240701T100000");
    // 2024-07-01T14:00:00Z
    assert_eq!(parse_ical_datetime(&start), Ok(Instant { secs: 1_719_842_400, nanos: 0 }));
}

#[test]
fn a_time_in_the_gap_of_a_zone_is_ambiguous() {
    let start = zoned("DTSTART", "America/New_York", "20240310T023000");
    assert_eq!(parse_ical_datetime(&start), Err(TimestampError::AmbiguousLocalTime));
}

#[test]
fn a_time_in_the_fold_of_a_zone_is_ambiguous() {
    let start = zoned("DTSTART", "America/New_York", "20241103T013000");
    assert_eq!(parse_ical_datetime(&start), Err(TimestampError::AmbiguousLocalTime));
}

#[test]
fn the_hours_around_a_gap_and_a_fold_are_resolved() {
    let before_gap = zoned("DTSTART", "America/New_York", "20240310T015959");
    // 2024-03-10T06:59:59Z
    assert_eq!(parse_ical_datetime(&before_gap), Ok(Instant { secs: 1_710_053_999, nanos: 0 }));
    let after_gap = zoned("DTSTART", "America/New_York", "20240310T030000");
    // 2024-03-10T07:00:00Z
    assert_eq!(parse_ical_datetime(&after_gap), Ok(Instant { secs: 1_710_054_000, nanos: 0 }));
    let after_fold = zoned("DTSTART", "America/New_York", "20241103T020000");
    // 2024-11-03T07:00:00Z
    assert_eq!(parse_ical_datetime(&after_fold), Ok(Instant { secs: 1_730_617_200, nanos: 0 }));
}

#[test]
fn a_stamp_with_the_utc_marker_is_read_as_utc() {
    assert_eq!(parse_ical_datetime(&property("DTSTART", "20240101T100000Z")), Ok(at(10, 0)));
    assert_eq!(
        parse_ical_datetime(&property("DTSTART", "19700101T000000Z")),
        Ok(Instant { secs: 0, nanos: 0 })
    );
    assert_eq!(
        parse_ical_datetime(&property("DTSTART", "19691231T235959Z")),
        Ok(Instant { secs: -1, nanos: 0 })
    );
}

#[test]
fn the_utc_marker_wins_over_a_zone() {
    let start = zoned("DTSTART", "America/New_York", "20240101T100000Z");
    assert_eq!(parse_ical_datetime(&start), Ok(at(10, 0)));
}

#[test]
fn a_leap_second_is_kept_in_the_nanoseconds() {
    // 2016-12-31T23:59:59Z is 1483228799.
    assert_eq!(
        parse_ical_datetime(&property("DTSTART", "20161231T235960Z")),
        Ok(Instant { secs: 1_483_228_799, nanos: 1_000_000_000 })
    );
}

#[test]
fn a_stamp_without_marker_and_zone_misses_its_zone() {
    assert_eq!(
        parse_ical_datetime(&property("DTSTART", "20240101T100000")),
        Err(TimestampError::MissingZone)
    );
}

#[test]
fn a_zone_that_is_not_in_the_database_is_unknown() {
    let start = zoned("DTSTART", "Mars/Olympus_Mons", "20240101T100000");
    assert_eq!(parse_ical_datetime(&start), Err(TimestampError::UnknownZone));
    let lower = zoned("DTSTART", "", "20240101T100000");
    assert_eq!(parse_ical_datetime(&lower), Err(TimestampError::UnknownZone));
}

#[test]
fn an_unknown_zone_is_reported_before_a_malformed_stamp() {
    let start = zoned("DTSTART", "Mars/Olympus_Mons", "not a stamp");
    assert_eq!(parse_ical_datetime(&start), Err(TimestampError::UnknownZone));
}

#[test]
fn a_stamp_that_does_not_follow_the_pattern_is_malformed() {
    assert_eq!(
        parse_ical_datetime(&property("DTSTART", "2024-01-01T10:00:00Z")),
        Err(TimestampError::Malformed)
    );
    assert_eq!(
        parse_ical_datetime(&property("DTSTART", "20240230T100000Z")),
        Err(TimestampError::Malformed)
    );
    assert_eq!(
        parse_ical_datetime(&property("DTSTART", "Z")),
        Err(TimestampError::Malformed)
    );
    let local = zoned("DTSTART", "Europe/Berlin", "20240101");
    assert_eq!(parse_ical_datetime(&local), Err(TimestampError::Malformed));
}

#[test]
fn the_first_zone_attribute_is_the_one_that_counts() {
    let start = Property {
        name: "DTSTART".to_string(),
        value: "20240101T100000".to_string(),
        attributes: vec![
            ("VALUE".to_string(), "DATE-TIME".to_string()),
            ("TZID".to_string(), "Europe/Berlin".to_string()),
            ("TZID".to_string(), "America/New_York".to_string()),
        ],
    };
    // Berlin is one hour ahead of UTC in winter.
    assert_eq!(parse_ical_datetime(&start), Ok(at(9, 0)));
}

#[test]
fn a_component_decodes_to_its_event() {
    let decoded = decode_event(&standup_component()).unwrap();
    assert_eq!(decoded.caldav_uid, "uid-1");
    assert_eq!(decoded.event.summary, "Standup");
    assert_eq!(decoded.event.start, at(10, 0));
    assert_eq!(decoded.event.end, at(10, 30));
}

#[test]
fn each_missing_property_is_named() {
    let without = |name: &str| {
        let mut component = standup_component();
        component.properties.retain(|p| p.name != name);
        decode_event(&component).err()
    };
    assert_eq!(without("UID"), Some(DecodeError::MissingProperty(Field::Uid)));
    assert_eq!(without("DTSTART"), Some(DecodeError::MissingProperty(Field::Start)));
    assert_eq!(without("DTEND"), Some(DecodeError::MissingProperty(Field::End)));
    assert_eq!(without("SUMMARY"), Some(DecodeError::MissingProperty(Field::Summary)));
}

#[test]
fn the_first_fault_of_a_component_is_reported() {
    let nothing = vevent(Vec::new());
    assert_eq!(decode_event(&nothing).err(), Some(DecodeError::MissingProperty(Field::Uid)));
    let bad_start = vevent(vec![property("UID", "u"), property("DTSTART", "20240101T100000")]);
    assert_eq!(
        decode_event(&bad_start).err(),
        Some(DecodeError::Timestamp(Field::Start, TimestampError::MissingZone))
    );
    let bad_end = vevent(vec![
        property("UID", "u"),
        property("DTSTART", "20240101T100000Z"),
        zoned("DTEND", "America/New_York", "20240310T023000"),
    ]);
    assert_eq!(
        decode_event(&bad_end).err(),
        Some(DecodeError::Timestamp(Field::End, TimestampError::AmbiguousLocalTime))
    );
}

#[test]
fn the_first_property_of_a_name_is_the_one_that_counts() {
    let component = vevent(vec![
        property("SUMMARY", "first"),
        property("UID", "one"),
        property("SUMMARY", "second"),
        property("UID", "two"),
        property("DTSTART", "20240101T100000Z"),
        property("DTEND", "20240101T103000Z"),
    ]);
    assert_eq!(get_ical_property(&component, "SUMMARY").unwrap().value, "first");
    assert!(get_ical_property(&component, "summary").is_none());
    assert!(get_ical_property(&component, "SUMMAR").is_none());
    assert!(get_ical_property(&component, "").is_none());
    let decoded = decode_event(&component).unwrap();
    assert_eq!(decoded.caldav_uid, "one");
    assert_eq!(decoded.event.summary, "first");
}

#[test]
fn only_events_with_a_time_of_day_are_timed() {
    assert!(is_timed_event(&standup_component()));
    let all_day = vevent(vec![
        property("UID", "uid-2"),
        property("SUMMARY", "Holiday"),
        property("DTSTART", "20240102"),
        property("DTEND", "20240103"),
    ]);
    assert!(!is_timed_event(&all_day));
    let no_start = vevent(vec![property("UID", "uid-3"), property("SUMMARY", "Nothing")]);
    assert!(is_timed_event(&no_start));
    let mut no_start_todo = no_start.clone();
    no_start_todo.name = "VTODO".to_string();
    assert!(!is_timed_event(&no_start_todo));
    let mut todo = standup_component();
    todo.name = "VTODO".to_string();
    assert!(!is_timed_event(&todo));
    let mut lower = standup_component();
    lower.name = "vevent".to_string();
    assert!(!is_timed_event(&lower));
}

#[test]
fn all_day_events_never_come_out_of_decoding() {
    let all_day = vevent(vec![
        property("UID", "uid-2"),
        property("SUMMARY", "Holiday"),
        property("DTSTART", "20240102"),
        property("DTEND", "20240103"),
    ]);
    let outcomes = decode_components(&vec![all_day.clone(), standup_component(), all_day]);
    assert_eq!(outcomes.len(), 1);
    assert_eq!(outcomes[0].as_ref().unwrap().caldav_uid, "uid-1");
}

#[test]
fn a_component_that_cannot_be_decoded_does_not_stop_the_others() {
    let broken = vevent(vec![
        property("SUMMARY", "Broken"),
        property("DTSTART", "20240101T090000Z"),
        property("DTEND", "20240101T093000Z"),
    ]);
    let outcomes = decode_components(&vec![broken, standup_component()]);
    assert_eq!(outcomes.len(), 2);
    let skipped = outcomes[0].as_ref().err().unwrap();
    assert_eq!(skipped.error, DecodeError::MissingProperty(Field::Uid));
    assert_eq!(skipped.description, "VEVENT 'Broken' at 20240101T090000Z");
    assert_eq!(outcomes[1].as_ref().unwrap().caldav_uid, "uid-1");
    let events = collect_events(outcomes);
    assert_eq!(events.len(), 1);
    assert_eq!(events[0].event.summary, "Standup");
}

#[test]
fn no_components_decode_to_nothing() {
    assert!(decode_components(&Vec::new()).is_empty());
    assert!(collect_events(Vec::new()).is_empty());
}

#[test]
fn a_component_is_described_by_name_summary_and_start() {
    assert_eq!(describe_ical_event(&standup_component()), "VEVENT 'Standup' at 20240101T100000Z");
    let bare = Component { name: "VTODO".to_string(), properties: Vec::new() };
    assert_eq!(
        describe_ical_event(&bare),
        "VTODO '(Unknown summary)' at (Unknown start time)"
    );
}

#[test]
fn an_event_is_written_as_a_minimal_record_in_utc() {
    let lunch = Event { start: at(12, 0), end: at(13, 0), summary: "Lunch".to_string() };
    let expected = "BEGIN:VCALENDAR\nBEGIN:VEVENT\nUID:abc\nSUMMARY:Lunch\n\
                    DTSTART:20240101T120000Z\nDTEND:20240101T130000Z\nEND:VEVENT\nEND:VCALENDAR\n";
    assert_eq!(encode(&lunch, "abc"), Ok(expected.to_string()));
}

#[test]
fn the_record_of_an_event_has_four_properties_without_attributes() {
    let lunch = Event { start: at(12, 0), end: at(13, 0), summary: "Lunch".to_string() };
    let calendar = lunch.to_ical("abc").unwrap();
    assert_eq!(calendar.name, "VCALENDAR");
    assert_eq!(calendar.components.len(), 1);
    let block = &calendar.components[0];
    assert_eq!(block.name, "VEVENT");
    let lines: Vec<(&str, &str)> =
        block.properties.iter().map(|p| (p.name.as_str(), p.value.as_str())).collect();
    assert_eq!(
        lines,
        vec![
            ("UID", "abc"),
            ("SUMMARY", "Lunch"),
            ("DTSTART", "20240101T120000Z"),
            ("DTEND", "20240101T130000Z"),
        ]
    );
    assert!(block.properties.iter().all(|p| p.attributes.is_empty()));
}

#[test]
fn an_instant_that_a_stamp_cannot_hold_is_refused() {
    let far = Event {
        start: Instant { secs: i64::MAX, nanos: 0 },
        end: at(13, 0),
        summary: "Far".to_string(),
    };
    assert_eq!(encode(&far, "abc"), Err(EncodeError::OutOfRange(Field::Start)));
    assert_eq!(far.to_ical("abc").err(), Some(EncodeError::OutOfRange(Field::Start)));
    let odd = Event {
        start: at(12, 0),
        end: Instant { secs: DAY, nanos: 2_000_000_000 },
        summary: "Odd".to_string(),
    };
    assert_eq!(encode(&odd, "abc"), Err(EncodeError::OutOfRange(Field::End)));
    let no_leap = Event {
        start: at(12, 0),
        end: Instant { secs: DAY, nanos: 1_000_000_000 },
        summary: "No leap second here".to_string(),
    };
    assert_eq!(encode(&no_leap, "abc"), Err(EncodeError::OutOfRange(Field::End)));
}

#[test]
fn the_years_of_four_digits_are_written_in_sixteen_characters() {
    assert_eq!(FIRST_SECOND, -62_167_219_200);
    assert_eq!(LAST_SECOND, 253_402_300_799);
    let span = |start: i64, end: i64| Event {
        start: Instant { secs: start, nanos: 0 },
        end: Instant { secs: end, nanos: 0 },
        summary: "Span".to_string(),
    };
    let whole = span(FIRST_SECOND, LAST_SECOND).to_ical("abc").unwrap();
    assert_eq!(whole.components[0].properties[2].value, "00000101T000000Z");
    assert_eq!(whole.components[0].properties[3].value, "99991231T235959Z");
    let wider = span(FIRST_SECOND - 1, LAST_SECOND + 1).to_ical("abc").unwrap();
    assert_eq!(wider.components[0].properties[2].value, "-00011231T235959Z");
    assert_eq!(wider.components[0].properties[3].value, "+100000101T000000Z");
}

#[test]
fn the_part_of_a_second_is_not_written() {
    let event = Event {
        start: Instant { secs: DAY, nanos: 500_000_000 },
        end: Instant { secs: DAY + 3600, nanos: 999_999_999 },
        summary: "Half".to_string(),
    };
    let calendar = event.to_ical("abc").unwrap();
    assert_eq!(calendar.components[0].properties[2].value, "20240101T000000Z");
    assert_eq!(calendar.components[0].properties[3].value, "20240101T010000Z");
    let text = encode(&event, "abc").unwrap();
    let decoded = fetch_caldav_events(&text).unwrap();
    assert_eq!(decoded.len(), 1);
    assert_eq!(decoded[0].caldav_uid, "abc");
    assert_eq!(decoded[0].event.start, Instant { secs: DAY, nanos: 0 });
    assert_eq!(decoded[0].event.end, Instant { secs: DAY + 3600, nanos: 0 });
    assert_eq!(decoded[0].event.summary, "Half");
}

#[test]
fn a_leap_second_with_a_part_of_a_second_is_written_as_the_leap_second() {
    let event = Event {
        start: Instant { secs: 1_483_228_799, nanos: 1_250_000_000 },
        end: Instant { secs: 1_483_228_800, nanos: 0 },
        summary: "Midnight".to_string(),
    };
    let calendar = event.to_ical("abc").unwrap();
    assert_eq!(calendar.components[0].properties[2].value, "20161231T235960Z");
    assert_eq!(
        parse_ical_datetime(&calendar.components[0].properties[2]),
        Ok(Instant { secs: 1_483_228_799, nanos: 1_000_000_000 })
    );
}

#[test]
fn a_line_break_is_written_as_it_is() {
    let event = Event { start: at(12, 0), end: at(13, 0), summary: "first\nsecond".to_string() };
    let expected = "BEGIN:VCALENDAR\nBEGIN:VEVENT\nUID:a\rb\nSUMMARY:first\nsecond\n\
                    DTSTART:20240101T120000Z\nDTEND:20240101T130000Z\nEND:VEVENT\nEND:VCALENDAR\n";
    assert_eq!(encode(&event, "a\rb"), Ok(expected.to_string()));
    let calendar = event.to_ical("a\rb").unwrap();
    assert_eq!(calendar.components[0].properties[0].value, "a\rb");
    assert_eq!(calendar.components[0].properties[1].value, "first\nsecond");
}

#[test]
fn the_start_is_looked_at_before_the_end() {
    let event = Event {
        start: Instant { secs: i64::MIN, nanos: 0 },
        end: Instant { secs: i64::MAX, nanos: 0 },
        summary: "a\nb".to_string(),
    };
    assert_eq!(encode(&event, "x\ny"), Err(EncodeError::OutOfRange(Field::Start)));
    let event = Event { start: at(1, 0), ..event };
    assert_eq!(encode(&event, "xy"), Err(EncodeError::OutOfRange(Field::End)));
}

#[test]
fn decoding_an_encoded_event_gives_the_event_back() {
    let events = vec![
        Event { start: at(10, 0), end: at(10, 30), summary: "Standup".to_string() },
        Event {
            start: Instant { secs: 0, nanos: 0 },
            end: Instant { secs: 86_399, nanos: 0 },
            summary: "Grüße, 日本語; and: punctuation".to_string(),
        },
        Event {
            start: Instant { secs: -86_400, nanos: 0 },
            end: Instant { secs: 253_402_300_799, nanos: 0 },
            summary: String::new(),
        },
    ];
    for event in events {
        let text = encode(&event, "0123456789abcdefghijKLMN").unwrap();
        let decoded = fetch_caldav_events(&text).unwrap();
        assert_eq!(decoded.len(), 1);
        assert_eq!(decoded[0].caldav_uid, "0123456789abcdefghijKLMN");
        assert_eq!(decoded[0].event.start, event.start);
        assert_eq!(decoded[0].event.end, event.end);
        assert_eq!(decoded[0].event.summary, event.summary);
        assert_eq!(decoded[0].event, event);
    }
}

const DOCUMENT: &str = "BEGIN:VCALENDAR
VERSION:2.0
PRODID:-//Example//EN
BEGIN:VTIMEZONE
TZID:America/New_York
END:VTIMEZONE
BEGIN:VEVENT
UID:uid-1
SUMMARY:Standup
DTSTART:20240101T100000Z
DTEND:20240101T103000Z
END:VEVENT
BEGIN:VEVENT
UID:uid-2
SUMMARY:Holiday
DTSTART;VALUE=DATE:20240102
DTEND;VALUE=DATE:20240103
END:VEVENT
BEGIN:VEVENT
SUMMARY:No identifier
DTSTART:20240101T110000Z
DTEND:20240101T113000Z
END:VEVENT
BEGIN:VEVENT
UID:uid-4
SUMMARY:Call
DTSTART;TZID=America/New_York:20240101T100000
DTEND;TZID=America/New_York:20240101T110000
BEGIN:VALARM
TRIGGER:-PT15M
END:VALARM
END:VEVENT
BEGIN:VEVENT
UID:uid-5
SUMMARY:Lost hour
DTSTART;TZID=America/New_York:20240310T023000
DTEND;TZID=America/New_York:20240310T033000
END:VEVENT
END:VCALENDAR
";

#[test]
fn a_document_is_decoded_event_by_event() {
    let outcomes = decode(DOCUMENT).unwrap();
    assert_eq!(outcomes.len(), 4);
    let first = outcomes[0].as_ref().unwrap();
    assert_eq!(first.caldav_uid, "uid-1");
    assert_eq!(first.event.start, at(10, 0));
    let second = outcomes[1].as_ref().err().unwrap();
    assert_eq!(second.error, DecodeError::MissingProperty(Field::Uid));
    assert_eq!(second.description, "VEVENT 'No identifier' at 20240101T110000Z");
    let third = outcomes[2].as_ref().unwrap();
    assert_eq!(third.caldav_uid, "uid-4");
    assert_eq!(third.event.summary, "Call");
    assert_eq!(third.event.start, at(15, 0));
    assert_eq!(third.event.end, at(16, 0));
    let fourth = outcomes[3].as_ref().err().unwrap();
    assert_eq!(
        fourth.error,
        DecodeError::Timestamp(Field::Start, TimestampError::AmbiguousLocalTime)
    );
}

#[test]
fn the_mirror_events_of_a_document_are_those_that_decode() {
    let events = fetch_caldav_events(DOCUMENT).unwrap();
    let uids: Vec<&str> = events.iter().map(|e| e.caldav_uid.as_str()).collect();
    assert_eq!(uids, vec!["uid-1", "uid-4"]);
}

#[test]
fn a_calendar_without_events_is_an_empty_list() {
    let events = fetch_caldav_events("BEGIN:VCALENDAR\nVERSION:2.0\nEND:VCALENDAR\n").unwrap();
    assert!(events.is_empty());
}

#[test]
fn a_document_that_cannot_be_read_is_an_error() {
    assert!(fetch_caldav_events("").is_err());
    assert!(decode("").is_err());
    let open = decode("BEGIN:VCALENDAR\nBEGIN:VEVENT\nUID:x\n");
    assert!(open.is_err());
    assert!(!open.err().unwrap().message.is_empty());
}

#[test]
fn the_failure_of_a_document_says_what_the_reader_said() {
    let unclosed = "BEGIN:VCALENDAR\nBEGIN:VEVENT\nUID:x\n";
    let expected = "CalDAV Error: 'Could not parse event: \
                    Error { message: \"Missing END:VEVENT\" }'";
    assert_eq!(decode(unclosed).err().unwrap().message, expected);
    assert_eq!(fetch_caldav_events(unclosed).err().unwrap().message, expected);
    let nothing = "CalDAV Error: 'Could not parse event: Error { message: \"Invalid input\" }'";
    assert_eq!(decode("").err().unwrap().message, nothing);
    assert_eq!(fetch_caldav_events("no calendar at all").err().unwrap().message, nothing);
}

#[test]
fn a_document_fails_or_not_the_same_way_each_time() {
    let folded = "BEGIN:VCALENDAR\nBEGIN:VEVENT\nUID:x\nSUMMARY:long\n text\n\
                  DTSTART:20240101T100000Z\nDTEND:20240101T110000Z\nEND:VEVENT\nEND:VCALENDAR\n";
    for _ in 0..5 {
        let events = fetch_caldav_events(folded).unwrap();
        assert_eq!(events.len(), 1);
        assert_eq!(events[0].event.summary, "longtext");
        assert!(decode("BEGIN:VCALENDAR\n").is_err());
    }
}

#[test]
fn a_leap_second_comes_back() {
    let event = Event {
        start: Instant { secs: 1_483_228_799, nanos: 1_000_000_000 },
        end: Instant { secs: 1_483_228_800, nanos: 0 },
        summary: "Midnight".to_string(),
    };
    let calendar = event.to_ical("abc").unwrap();
    assert_eq!(calendar.components[0].properties[2].value, "20161231T235960Z");
    let decoded = fetch_caldav_events(&encode(&event, "abc").unwrap()).unwrap();
    assert_eq!(decoded.len(), 1);
    assert_eq!(decoded[0].event, event);
}

#[test]
fn every_stamp_that_is_written_is_read_back() {
    let step = (LAST_SECOND - FIRST_SECOND) / 20_000;
    let mut secs = FIRST_SECOND;
    let mut count = 0;
    while secs <= LAST_SECOND {
        let at = Instant { secs, nanos: 0 };
        let event = Event { start: at, end: at, summary: String::new() };
        let calendar = event.to_ical("abc").unwrap();
        let start = &calendar.components[0].properties[2];
        assert_eq!(start.name, "DTSTART");
        assert_eq!(start.value.len(), 16);
        assert!(start.value.chars().enumerate().all(|(i, c)| match i {
            8 => c == 'T',
            15 => c == 'Z',
            _ => c.is_ascii_digit(),
        }));
        assert_eq!(parse_ical_datetime(start), Ok(at));
        assert_eq!(parse_ical_datetime(&calendar.components[0].properties[3]), Ok(at));
        secs += step + 1;
        count += 1;
    }
    assert!(count >= 19_000);
}

#[test]
fn what_is_written_comes_back_from_the_reader() {
    let summaries = [
        "",
        " ",
        "  two spaces before and after  ",
        "BEGIN:VEVENT",
        "END:VEVENT",
        "END:VCALENDAR",
        ":",
        "a:b;c=d",
        "\"quoted: text\"",
        "\"",
        "tab\there",
        "backslash \\n and \\, written out",
        "Grüße, 日本語 \u{2028} \u{85} \u{b}",
    ];
    let uids = ["abc", "", " ", "a b", "x:y", "BEGIN", "q\"r", "0123456789abcdefghijKLMN"];
    for summary in summaries {
        for uid in uids {
            let event = Event { start: at(10, 0), end: at(11, 0), summary: summary.to_string() };
            let text = encode(&event, uid).unwrap();
            let decoded = fetch_caldav_events(&text).unwrap();
            assert_eq!(decoded.len(), 1);
            assert_eq!(decoded[0].caldav_uid, uid);
            assert_eq!(decoded[0].event, event);
        }
    }
}

#[test]
fn an_event_without_a_start_is_reported() {
    let no_start = vevent(vec![
        property("UID", "uid-3"),
        property("SUMMARY", "Nothing"),
        property("DTEND", "20240101T103000Z"),
    ]);
    let outcomes = decode_components(&vec![no_start]);
    assert_eq!(outcomes.len(), 1);
    let skipped = outcomes[0].as_ref().err().unwrap();
    assert_eq!(skipped.error, DecodeError::MissingProperty(Field::Start));
    assert_eq!(skipped.description, "VEVENT 'Nothing' at (Unknown start time)");
}

#[test]
fn every_malformed_event_of_a_document_is_reported_with_its_property() {
    let document = "BEGIN:VCALENDAR
BEGIN:VEVENT
SUMMARY:no uid
DTSTART:20240101T100000Z
DTEND:20240101T103000Z
END:VEVENT
BEGIN:VEVENT
UID:2
SUMMARY:no start
DTEND:20240101T103000Z
END:VEVENT
BEGIN:VEVENT
UID:3
SUMMARY:no end
DTSTART:20240101T100000Z
END:VEVENT
BEGIN:VEVENT
UID:4
DTSTART:20240101T100000Z
DTEND:20240101T103000Z
END:VEVENT
BEGIN:VEVENT
UID:5
SUMMARY:bad start
DTSTART:2024-01-01T10:00:00Z
DTEND:20240101T103000Z
END:VEVENT
BEGIN:VEVENT
UID:6
SUMMARY:bad end
DTSTART:20240101T100000Z
DTEND;TZID=Nowhere/At_All:20240101T103000
END:VEVENT
BEGIN:VEVENT
UID:7
SUMMARY:whole day
DTSTART;VALUE=DATE:20240101
END:VEVENT
BEGIN:VEVENT
UID:8
SUMMARY:fine
DTSTART:20240101T100000Z
DTEND:20240101T103000Z
END:VEVENT
END:VCALENDAR
";
    let outcomes = decode(document).unwrap();
    let reported: Vec<(DecodeError, &str)> = outcomes
        .iter()
        .filter_map(|outcome| outcome.as_ref().err())
        .map(|skipped| (skipped.error, skipped.description.as_str()))
        .collect();
    assert_eq!(
        reported,
        vec![
            (DecodeError::MissingProperty(Field::Uid), "VEVENT 'no uid' at 20240101T100000Z"),
            (DecodeError::MissingProperty(Field::Start), "VEVENT 'no start' at (Unknown start time)"),
            (DecodeError::MissingProperty(Field::End), "VEVENT 'no end' at 20240101T100000Z"),
            (
                DecodeError::MissingProperty(Field::Summary),
                "VEVENT '(Unknown summary)' at 20240101T100000Z"
            ),
            (
                DecodeError::Timestamp(Field::Start, TimestampError::Malformed),
                "VEVENT 'bad start' at 2024-01-01T10:00:00Z"
            ),
            (
                DecodeError::Timestamp(Field::End, TimestampError::UnknownZone),
                "VEVENT 'bad end' at 20240101T100000Z"
            ),
        ]
    );
    let events = collect_events(outcomes);
    assert_eq!(events.len(), 1);
    assert_eq!(events[0].caldav_uid, "8");
}
