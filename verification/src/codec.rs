//! Between calendar records and events: which components are mirrored,
//! how their timestamps are resolved, and how an event is written.

use crate::clock::format_utc;
use crate::clock::local_resolution;
use crate::clock::read_wall_clock;
use crate::clock::resolve_local;
use crate::clock::in_stamp_years;
use crate::clock::is_digit;
use crate::clock::whole_second;
use crate::clock::is_utc_stamp;
use crate::clock::is_whole_second;
use crate::clock::utc_pattern;
use crate::clock::utc_text;
use crate::clock::NANOS_PER_SECOND;
use crate::clock::wall_clock_reading;
use crate::clock::zone_exists;
use crate::clock::zone_is_known;
use crate::clock::Instant;
use crate::clock::LocalTimes;
use crate::clock::WallClock;
use crate::event::mirror_views;
use crate::event::Event;
use crate::event::EventKey;
use crate::event::EventWithCaldavUid;
use crate::event::MirrorKey;
use crate::record::describe_ical_event;
use crate::record::description;
use crate::record::find_attribute;
use crate::record::find_property;
use crate::record::get_ical_property;
use crate::record::has_line_break;
use crate::record::is_label;
use crate::record::is_simple_property;
use crate::record::simple;
use crate::record::may_read;
use crate::record::calendar_text;
use crate::record::component_views;
use crate::record::parse_components;
use crate::record::plain;
use crate::record::reading_failure;
use crate::record::serialize_calendar;
use crate::record::Calendar;
use crate::record::CalendarView;
use crate::record::ComponentView;
use crate::record::Component;
use crate::record::Property;
use crate::record::PropertyView;
use crate::text::contains_char;
use crate::text::ends_with;
use crate::text::ends_with_char;
use crate::text::same_text;
use vstd::prelude::*;
use vstd::string::StringExecFns;

verus! {

/// The properties that an event cannot do without.
#[derive(Clone, Copy, Debug, PartialEq, Eq, Structural)]
pub enum Field {
    Uid,
    Summary,
    Start,
    End,
}

/// What is wrong with a timestamp.
#[derive(Clone, Copy, Debug, PartialEq, Eq, Structural)]
pub enum TimestampError {
    /// The timestamp has no UTC marker and names no zone.
    MissingZone,
    /// The zone that the timestamp names is not in the zone database.
    UnknownZone,
    /// The timestamp is not written as the pattern asks.
    Malformed,
    /// The clocks of the zone showed the time twice, or never.
    AmbiguousLocalTime,
}

/// Why a component could not be decoded.
#[derive(Clone, Copy, Debug, PartialEq, Eq, Structural)]
pub enum DecodeError {
    /// The component lacks this required property.
    MissingProperty(Field),
    /// The timestamp of this property, the start or the end, stands for no
    /// instant.
    Timestamp(Field, TimestampError),
}

/// The pattern of a timestamp on the clocks of a zone.
pub open spec fn local_pattern() -> Seq<char> {
    "%Y%m%dT%H%M%S"@
}

/// The instant that a timestamp property stands for. A value that ends in
/// `Z` is read as UTC. Any other value is read on the clocks of the zone
/// that the attribute `TZID` names, and stands for an instant only where
/// those clocks showed it exactly once.
pub open spec fn instant_of(property: PropertyView) -> Result<Instant, TimestampError> {
    if ends_with(property.value, 'Z') {
        match wall_clock_reading(property.value, utc_pattern()) {
            Some(time) => Ok(Instant { secs: time.secs, nanos: time.nanos }),
            None => Err(TimestampError::Malformed),
        }
    } else {
        match find_attribute(property.attributes, "TZID"@) {
            None => Err(TimestampError::MissingZone),
            Some(zone) => if !zone_exists(zone) {
                Err(TimestampError::UnknownZone)
            } else {
                match wall_clock_reading(property.value, local_pattern()) {
                    None => Err(TimestampError::Malformed),
                    Some(time) => match local_resolution(time, zone) {
                        Some(LocalTimes::Once(at)) => Ok(at),
                        _ => Err(TimestampError::AmbiguousLocalTime),
                    },
                }
            },
        }
    }
}

/// Resolves a timestamp property to an instant.
pub fn parse_ical_datetime(property: &Property) -> (outcome: Result<Instant, TimestampError>)
    ensures
        outcome == instant_of(property@),
{
    let value = property.value.as_str();
    if ends_with_char(value, 'Z') {
        match read_wall_clock(value, "%Y%m%dT%H%M%SZ") {
            Some(time) => Ok(Instant { secs: time.secs, nanos: time.nanos }),
            None => Err(TimestampError::Malformed),
        }
    } else {
        let zone = match property.get_attribute("TZID") {
            Some(zone) => zone,
            None => {
                return Err(TimestampError::MissingZone);
            },
        };
        if !zone_is_known(zone.as_str()) {
            return Err(TimestampError::UnknownZone);
        }
        let time = match read_wall_clock(value, "%Y%m%dT%H%M%S") {
            Some(time) => time,
            None => {
                return Err(TimestampError::Malformed);
            },
        };
        match resolve_local(time, zone.as_str()) {
            Some(LocalTimes::Once(at)) => Ok(at),
            _ => Err(TimestampError::AmbiguousLocalTime),
        }
    }
}

/// Whether a component is an event that is not for whole days: it is
/// called `VEVENT`, and the value of its start, where it has a start, holds
/// a `T`. An event without a start counts, so that what it lacks is
/// reported.
pub open spec fn is_timed(component: ComponentView) -> bool {
    component.name == "VEVENT"@ && match find_property(component.properties, "DTSTART"@) {
        Some(start) => start.value.contains('T'),
        None => true,
    }
}

/// Whether a component is an event that is not for whole days. Events for
/// whole days and components of other kinds are not mirrored, and nothing
/// is reported of them.
pub fn is_timed_event(component: &Component) -> (timed: bool)
    ensures
        timed == is_timed(component@),
{
    if !same_text(component.name.as_str(), "VEVENT") {
        return false;
    }
    match get_ical_property(component, "DTSTART") {
        Some(start) => contains_char(start.value.as_str(), 'T'),
        None => true,
    }
}

/// The mirror event that a component stands for, or the first thing that
/// is wrong with it and the property that it is wrong with: the identifier
/// is looked at first, then the start, the end and the summary.
pub open spec fn event_of(component: ComponentView) -> Result<MirrorKey, DecodeError> {
    let properties = component.properties;
    match find_property(properties, "UID"@) {
        None => Err(DecodeError::MissingProperty(Field::Uid)),
        Some(uid) => match find_property(properties, "DTSTART"@) {
            None => Err(DecodeError::MissingProperty(Field::Start)),
            Some(start_property) => match instant_of(start_property) {
                Err(error) => Err(DecodeError::Timestamp(Field::Start, error)),
                Ok(start) => match find_property(properties, "DTEND"@) {
                    None => Err(DecodeError::MissingProperty(Field::End)),
                    Some(end_property) => match instant_of(end_property) {
                        Err(error) => Err(DecodeError::Timestamp(Field::End, error)),
                        Ok(end) => match find_property(properties, "SUMMARY"@) {
                            None => Err(DecodeError::MissingProperty(Field::Summary)),
                            Some(summary) => Ok(
                                MirrorKey {
                                    caldav_uid: uid.value,
                                    event: EventKey { start, end, summary: summary.value },
                                },
                            ),
                        },
                    },
                },
            },
        },
    }
}

/// What an outcome of decoding is in contracts.
pub open spec fn outcome_view(outcome: Result<EventWithCaldavUid, DecodeError>) -> Result<
    MirrorKey,
    DecodeError,
> {
    match outcome {
        Ok(event) => Ok(event@),
        Err(error) => Err(error),
    }
}

/// Decodes one component.
pub fn decode_event(component: &Component) -> (outcome: Result<EventWithCaldavUid, DecodeError>)
    ensures
        outcome_view(outcome) == event_of(component@),
{
    let uid = match get_ical_property(component, "UID") {
        Some(p) => p,
        None => {
            return Err(DecodeError::MissingProperty(Field::Uid));
        },
    };
    let start = match get_ical_property(component, "DTSTART") {
        Some(p) => match parse_ical_datetime(p) {
            Ok(at) => at,
            Err(error) => {
                return Err(DecodeError::Timestamp(Field::Start, error));
            },
        },
        None => {
            return Err(DecodeError::MissingProperty(Field::Start));
        },
    };
    let end = match get_ical_property(component, "DTEND") {
        Some(p) => match parse_ical_datetime(p) {
            Ok(at) => at,
            Err(error) => {
                return Err(DecodeError::Timestamp(Field::End, error));
            },
        },
        None => {
            return Err(DecodeError::MissingProperty(Field::End));
        },
    };
    let summary = match get_ical_property(component, "SUMMARY") {
        Some(p) => p,
        None => {
            return Err(DecodeError::MissingProperty(Field::Summary));
        },
    };
    Ok(
        EventWithCaldavUid {
            caldav_uid: uid.value.clone(),
            event: Event { start, end, summary: summary.value.clone() },
        },
    )
}

/// A component that was left out, and why.
#[derive(Clone, Debug)]
pub struct Skipped {
    pub error: DecodeError,
    /// The component as `describe_ical_event` names it.
    pub description: String,
}

/// What a skipped component is in contracts.
pub struct SkippedView {
    pub error: DecodeError,
    pub description: Seq<char>,
}

impl View for Skipped {
    type V = SkippedView;

    open spec fn view(&self) -> SkippedView {
        SkippedView { error: self.error, description: self.description@ }
    }
}

/// What one timed component decodes to: its event, or the reason why it is
/// skipped together with its description.
pub open spec fn decoded_one(component: ComponentView) -> Result<MirrorKey, SkippedView> {
    match event_of(component) {
        Ok(event) => Ok(event),
        Err(error) => Err(SkippedView { error, description: description(component) }),
    }
}

/// What a list of components decodes to: one outcome for each event that
/// is not for whole days, in the order of the list. A component that cannot
/// be decoded takes nothing away from the others.
pub open spec fn decoded(components: Seq<ComponentView>) -> Seq<Result<MirrorKey, SkippedView>> {
    components.filter(|c: ComponentView| is_timed(c)).map_values(
        |c: ComponentView| decoded_one(c),
    )
}

/// What the outcome for one component is in contracts.
pub open spec fn skip_view(outcome: Result<EventWithCaldavUid, Skipped>) -> Result<
    MirrorKey,
    SkippedView,
> {
    match outcome {
        Ok(event) => Ok(event@),
        Err(skipped) => Err(skipped@),
    }
}

/// What a list of outcomes is in contracts.
pub open spec fn outcome_views(outcomes: Seq<Result<EventWithCaldavUid, Skipped>>) -> Seq<
    Result<MirrorKey, SkippedView>,
> {
    outcomes.map_values(|o: Result<EventWithCaldavUid, Skipped>| skip_view(o))
}

/// Decodes the events among `components` that are not for whole days. An
/// event that lacks its start is among them, and is reported as such.
pub fn decode_components(components: &Vec<Component>) -> (outcomes: Vec<
    Result<EventWithCaldavUid, Skipped>,
>)
    ensures
        outcome_views(outcomes@) == decoded(component_views(components@)),
{
    let ghost all = component_views(components@);
    let mut outcomes: Vec<Result<EventWithCaldavUid, Skipped>> = Vec::new();
    let mut i: usize = 0;
    while i < components.len()
        invariant
            i <= components.len(),
            all == component_views(components@),
            outcome_views(outcomes@) == decoded(all.take(i as int)),
        decreases components.len() - i,
    {
        let component = &components[i];
        let ghost before = outcomes@;
        let ghost longer = all.take(i as int + 1);
        proof {
            reveal(Seq::filter);
            assert(longer.drop_last() == all.take(i as int));
            assert(longer.last() == component@);
        }
        if is_timed_event(component) {
            let outcome = match decode_event(component) {
                Ok(event) => Ok(event),
                Err(error) => Err(Skipped { error, description: describe_ical_event(component) }),
            };
            outcomes.push(outcome);
            proof {
                let timed = all.take(i as int).filter(|c: ComponentView| is_timed(c));
                assert(longer.filter(|c: ComponentView| is_timed(c)) == timed.push(component@));
                assert(outcome_views(outcomes@) == outcome_views(before).push(
                    decoded_one(component@),
                ));
                assert(decoded(longer) == decoded(all.take(i as int)).push(
                    decoded_one(component@),
                ));
            }
        }
        i += 1;
    }
    assert(all.take(components.len() as int) == all);
    outcomes
}

/// The events among the outcomes, in their order.
pub open spec fn kept(outcomes: Seq<Result<MirrorKey, SkippedView>>) -> Seq<MirrorKey> {
    outcomes.filter(|o: Result<MirrorKey, SkippedView>| o is Ok).map_values(
        |o: Result<MirrorKey, SkippedView>| o->Ok_0,
    )
}

/// Keeps the events that were decoded and drops the components that were
/// skipped.
pub fn collect_events(outcomes: Vec<Result<EventWithCaldavUid, Skipped>>) -> (events: Vec<
    EventWithCaldavUid,
>)
    ensures
        mirror_views(events@) == kept(outcome_views(outcomes@)),
{
    let ghost all = outcomes@;
    let mut events: Vec<EventWithCaldavUid> = Vec::new();
    for outcome in it: outcomes
        invariant
            it.seq() == all,
            mirror_views(events@) == kept(outcome_views(all.take(it.index() as int))),
    {
        let ghost before = events@;
        let ghost done = outcome_views(all.take(it.index() as int));
        let ghost longer = outcome_views(all.take(it.index() as int + 1));
        let ghost view = skip_view(outcome);
        proof {
            reveal(Seq::filter);
            assert(all.take(it.index() as int + 1) == all.take(it.index() as int).push(outcome));
            assert(longer == done.push(view));
            assert(longer.drop_last() == done);
        }
        match outcome {
            Ok(event) => {
                proof {
                    let oks = done.filter(|o: Result<MirrorKey, SkippedView>| o is Ok);
                    assert(longer.filter(|o: Result<MirrorKey, SkippedView>| o is Ok) == oks.push(
                        view,
                    ));
                    assert(kept(longer) == kept(done).push(event@));
                }
                events.push(event);
                assert(mirror_views(events@) == mirror_views(before).push(event@));
            },
            Err(_) => {},
        }
    }
    assert(all.take(all.len() as int) == all);
    events
}

/// A calendar document that could not be read at all.
#[derive(Clone, Debug)]
pub struct ParseFailure {
    /// What the reader said when it gave up.
    pub message: String,
}

/// Decodes a calendar document. The document is handed to the reader as it
/// is. Where the reader gives up, the outcome is its failure: a document
/// that cannot be read is an error, never an empty list. Where it reads the
/// document, the outcomes are those of the components that it found: one
/// for each event that is not for whole days, in their order, and a component that
/// cannot be decoded takes nothing away from the others.
pub fn decode(data: &str) -> (outcome: Result<
    Vec<Result<EventWithCaldavUid, Skipped>>,
    ParseFailure,
>)
    ensures
        match outcome {
            Ok(outcomes) => reading_failure(data@) is None && exists|
                components: Seq<ComponentView>,
            |
                may_read(data@, components) && outcome_views(outcomes@) == #[trigger] decoded(
                    components,
                ),
            Err(failure) => reading_failure(data@) == Some(failure.message@),
        },
{
    match parse_components(data) {
        Ok(components) => {
            let outcomes = decode_components(&components);
            assert(outcome_views(outcomes@) == decoded(component_views(components@)));
            Ok(outcomes)
        },
        Err(message) => Err(ParseFailure { message }),
    }
}

/// The mirror events of a calendar document: what `decode` decodes, without
/// the components that it skips. It fails where `decode` fails, with the
/// same failure.
pub fn fetch_caldav_events(data: &str) -> (outcome: Result<Vec<EventWithCaldavUid>, ParseFailure>)
    ensures
        match outcome {
            Ok(events) => reading_failure(data@) is None && exists|
                components: Seq<ComponentView>,
            |
                may_read(data@, components) && mirror_views(events@) == kept(
                    #[trigger] decoded(components),
                ),
            Err(failure) => reading_failure(data@) == Some(failure.message@),
        },
{
    match parse_components(data) {
        Ok(components) => {
            let events = collect_events(decode_components(&components));
            assert(mirror_views(events@) == kept(decoded(component_views(components@))));
            Ok(events)
        },
        Err(message) => Err(ParseFailure { message }),
    }
}

/// A property without attributes.
pub open spec fn bare(name: Seq<char>, value: Seq<char>) -> PropertyView {
    PropertyView { name, value, attributes: Seq::empty() }
}

/// Why an event cannot be written.
#[derive(Clone, Copy, Debug, PartialEq, Eq, Structural)]
pub enum EncodeError {
    /// The start or the end is no instant that the calendar has, so that
    /// there is no stamp for it.
    OutOfRange(Field),
}

/// The first reason, if there is one, why `event` cannot be written: the
/// start is looked at first, then the end.
pub open spec fn refusal(event: EventKey) -> Option<EncodeError> {
    if utc_text(event.start, utc_pattern()) is None {
        Some(EncodeError::OutOfRange(Field::Start))
    } else if utc_text(event.end, utc_pattern()) is None {
        Some(EncodeError::OutOfRange(Field::End))
    } else {
        None
    }
}

/// The calendar that holds `event` under the identifier `uid` and nothing
/// else: one `VEVENT` in a `VCALENDAR`, with the identifier and the summary
/// as they are, and the start and the end written in UTC. There is one for
/// every event whose start and end have a stamp.
pub open spec fn ical_of(event: EventKey, uid: Seq<char>) -> Result<CalendarView, EncodeError> {
    match refusal(event) {
        Some(error) => Err(error),
        None => Ok(
            CalendarView {
                name: "VCALENDAR"@,
                components: seq![
                    ComponentView {
                        name: "VEVENT"@,
                        properties: seq![
                            bare("UID"@, uid),
                            bare("SUMMARY"@, event.summary),
                            bare("DTSTART"@, utc_text(event.start, utc_pattern())->0),
                            bare("DTEND"@, utc_text(event.end, utc_pattern())->0),
                        ],
                    },
                ],
            },
        ),
    }
}

/// Whether nothing stands in the way of writing the event: its start and
/// its end lie in the years 0000 to 9999 and are no leap seconds.
pub open spec fn surely_written(event: EventKey) -> bool {
    &&& in_stamp_years(event.start) && event.start.nanos < NANOS_PER_SECOND
    &&& in_stamp_years(event.end) && event.end.nanos < NANOS_PER_SECOND
}

/// Whether a record can hold the event under the identifier `uid` so that
/// it can be read again: the identifier and the summary are one line each,
/// and the start and the end lie in the years 0000 to 9999.
pub open spec fn legible(event: EventKey, uid: Seq<char>) -> bool {
    &&& !has_line_break(uid)
    &&& !has_line_break(event.summary)
    &&& in_stamp_years(event.start)
    &&& in_stamp_years(event.end)
}

/// The event as a record holds it: without the parts of a second of its
/// start and its end. An event of whole seconds is held as it is.
pub open spec fn as_written(event: EventKey) -> EventKey {
    EventKey {
        start: whole_second(event.start),
        end: whole_second(event.end),
        summary: event.summary,
    }
}

fn bare_property(name: &str, value: &str) -> (property: Property)
    ensures
        property@ == bare(name@, value@),
{
    let property = Property {
        name: String::from_str(name),
        value: String::from_str(value),
        attributes: Vec::new(),
    };
    assert(property@.attributes =~= Seq::empty());
    property
}

proof fn lemma_stamp_is_one_line(text: Seq<char>)
    requires
        is_utc_stamp(text),
    ensures
        text.contains('T'),
        ends_with(text, 'Z'),
        !has_line_break(text),
{
    assert(text[8] == 'T');
    assert(text[15] == 'Z');
    assert forall|i: int| 0 <= i < text.len() implies text[i] != '\n' && text[i] != '\r' by {
        if i != 8 && i != 15 {
            assert(is_digit(text[i]));
        }
    }
}

fn write_stamp(at: Instant, field: Field) -> (stamp: Result<String, EncodeError>)
    ensures
        match stamp {
            Ok(text) => utc_text(at, utc_pattern()) == Some(text@),
            Err(error) => utc_text(at, utc_pattern()) is None && error == EncodeError::OutOfRange(
                field,
            ),
        },
        in_stamp_years(at) && at.nanos < NANOS_PER_SECOND ==> stamp is Ok,
        stamp matches Ok(text) ==> (in_stamp_years(at) ==> is_utc_stamp(text@) && reads_back(
            text@,
            whole_second(at),
        )),
{
    match format_utc(at, "%Y%m%dT%H%M%SZ") {
        Some(text) => {
            proof {
                if in_stamp_years(at) {
                    lemma_stamp_is_one_line(text@);
                }
            }
            Ok(text)
        },
        None => Err(EncodeError::OutOfRange(field)),
    }
}

proof fn lemma_record_names()
    ensures
        is_label("VCALENDAR"@),
        is_label("VEVENT"@),
        is_label("UID"@),
        is_label("SUMMARY"@),
        is_label("DTSTART"@),
        is_label("DTEND"@),
        "UID"@ != "BEGIN"@ && "UID"@ != "END"@,
        "SUMMARY"@ != "BEGIN"@ && "SUMMARY"@ != "END"@,
        "DTSTART"@ != "BEGIN"@ && "DTSTART"@ != "END"@,
        "DTEND"@ != "BEGIN"@ && "DTEND"@ != "END"@,
{
    reveal_strlit("VCALENDAR");
    reveal_strlit("VEVENT");
    reveal_strlit("UID");
    reveal_strlit("SUMMARY");
    reveal_strlit("DTSTART");
    reveal_strlit("DTEND");
    reveal_strlit("BEGIN");
    reveal_strlit("END");
    assert("UID"@[0] != "END"@[0]);
    assert("DTEND"@[0] != "BEGIN"@[0]);
    assert("UID"@.len() == 3 && "END"@.len() == 3 && "BEGIN"@.len() == 5 && "DTEND"@.len() == 5
        && "SUMMARY"@.len() == 7 && "DTSTART"@.len() == 7 && "VEVENT"@.len() == 6
        && "VCALENDAR"@.len() == 9);
}

/// Whether the reader reads `text` and whatever it hands out for it decodes
/// to the one event `event` under the identifier `uid`.
pub open spec fn comes_back(text: Seq<char>, uid: Seq<char>, event: EventKey) -> bool {
    &&& reading_failure(text) is None
    &&& forall|read: Seq<ComponentView>| #[trigger]
        may_read(text, read) ==> kept(decoded(read)) == seq![MirrorKey { caldav_uid: uid, event }]
}

impl Event {
    /// The calendar record of this event under the identifier `uid`: the
    /// identifier, the summary, the start and the end, and nothing else.
    /// Every event whose start and end have a stamp has a record, and so
    /// every event of the years 0000 to 9999 without a leap second. In
    /// those years both stamps have the shape of eight digits, a `T`, six
    /// digits and a `Z`. A record that is legible gives the event back as
    /// it was written: its start and its end are read back as their whole
    /// seconds, and the record decodes to that event under this
    /// identifier.
    pub fn to_ical(&self, uid: &str) -> (calendar: Result<Calendar, EncodeError>)
        ensures
            match calendar {
                Ok(c) => ical_of(self@, uid@) == Ok::<CalendarView, EncodeError>(c@),
                Err(error) => ical_of(self@, uid@) == Err::<CalendarView, EncodeError>(error),
            },
            surely_written(self@) ==> calendar is Ok,
            calendar matches Ok(c) ==> {
                &&& in_stamp_years(self.start) ==> is_utc_stamp(
                    c@.components[0].properties[2].value,
                )
                &&& in_stamp_years(self.end) ==> is_utc_stamp(c@.components[0].properties[3].value)
                &&& legible(self@, uid@) ==> {
                    &&& simple(c@)
                    &&& instant_of(c@.components[0].properties[2]) == Ok::<
                        Instant,
                        TimestampError,
                    >(whole_second(self.start))
                    &&& instant_of(c@.components[0].properties[3]) == Ok::<
                        Instant,
                        TimestampError,
                    >(whole_second(self.end))
                    &&& decoded(c@.components) == seq![
                        Ok::<MirrorKey, SkippedView>(
                            MirrorKey { caldav_uid: uid@, event: as_written(self@) },
                        ),
                    ]
                }
            },
    {
        let start = write_stamp(self.start, Field::Start)?;
        let end = write_stamp(self.end, Field::End)?;
        let mut properties: Vec<Property> = Vec::new();
        properties.push(bare_property("UID", uid));
        properties.push(bare_property("SUMMARY", self.summary.as_str()));
        properties.push(bare_property("DTSTART", start.as_str()));
        properties.push(bare_property("DTEND", end.as_str()));
        let vevent = Component { name: String::from_str("VEVENT"), properties };
        assert(vevent@.properties =~= seq![
            bare("UID"@, uid@),
            bare("SUMMARY"@, self.summary@),
            bare("DTSTART"@, start@),
            bare("DTEND"@, end@),
        ]);
        let mut components: Vec<Component> = Vec::new();
        components.push(vevent);
        let vcalendar = Calendar { name: String::from_str("VCALENDAR"), components };
        assert(vcalendar@.components =~= seq![vevent@]);
        proof {
            lemma_record_names();
            lemma_record_round_trip(self@, uid@);
            assert(legible(self@, uid@) ==> simple(vcalendar@)) by {
                if legible(self@, uid@) {
                    assert forall|i: int, j: int|
                        0 <= i < vcalendar@.components.len() && 0 <= j
                            < vcalendar@.components[i].properties.len() implies is_simple_property(
                        #[trigger] vcalendar@.components[i].properties[j],
                    ) by {
                        assert(i == 0);
                        assert(j == 0 || j == 1 || j == 2 || j == 3);
                    }
                }
            }
        }
        Ok(vcalendar)
    }
}

/// The text of the calendar record of `event` under `uid`, as it is
/// written to the mirror, or why the event cannot be written.
pub open spec fn encoded(event: EventKey, uid: Seq<char>) -> Result<Seq<char>, EncodeError> {
    match ical_of(event, uid) {
        Ok(calendar) => Ok(calendar_text(calendar)),
        Err(error) => Err(error),
    }
}

/// Writes the calendar record of `event` under the identifier `uid`. Every
/// event whose start and end have a stamp is written. Where the record is
/// legible, the text gives the event back as it was written: the reader
/// reads it, and what it hands out decodes to that event under this
/// identifier and to nothing else.
pub fn encode(event: &Event, uid: &str) -> (text: Result<String, EncodeError>)
    ensures
        match text {
            Ok(t) => encoded(event@, uid@) == Ok::<Seq<char>, EncodeError>(t@),
            Err(error) => encoded(event@, uid@) == Err::<Seq<char>, EncodeError>(error),
        },
        surely_written(event@) ==> text is Ok,
        text matches Ok(t) ==> (legible(event@, uid@) ==> comes_back(t@, uid@, as_written(event@))),
{
    let calendar = event.to_ical(uid)?;
    assert(plain(calendar@)) by {
        assert forall|i: int, j: int|
            0 <= i < calendar@.components.len() && 0 <= j
                < calendar@.components[i].properties.len() implies (
        #[trigger] calendar@.components[i].properties[j]).attributes.len() == 0 by {
            assert(i == 0);
        }
    }
    let text = serialize_calendar(&calendar);
    proof {
        let only = seq![
            Ok::<MirrorKey, SkippedView>(MirrorKey { caldav_uid: uid@, event: as_written(event@) }),
        ];
        reveal_with_fuel(Seq::filter, 2);
        assert(only.drop_last() == Seq::<Result<MirrorKey, SkippedView>>::empty());
        assert(only.filter(|o: Result<MirrorKey, SkippedView>| o is Ok) == only);
        assert(kept(only) == seq![MirrorKey { caldav_uid: uid@, event: as_written(event@) }]);
    }
    Ok(text)
}

/// Every outcome of decoding comes from a component that is an event and
/// not for whole days: the result is the place of that component for the outcome
/// at place `j`.
pub proof fn lemma_decoded_origin(components: Seq<ComponentView>, j: int) -> (i: int)
    requires
        0 <= j < decoded(components).len(),
    ensures
        0 <= i < components.len(),
        is_timed(components[i]),
        decoded(components)[j] == decoded_one(components[i]),
{
    let timed = components.filter(|c: ComponentView| is_timed(c));
    components.lemma_filter_pred(|c: ComponentView| is_timed(c), j);
    assert(timed.contains(timed[j]));
    components.lemma_filter_contains_rev(|c: ComponentView| is_timed(c), timed[j]);
    let i = choose|i: int| 0 <= i < components.len() && components[i] == timed[j];
    assert(is_timed(components[i]));
    i
}

/// Components none of which is an event that is not for whole days decode
/// to nothing: events for whole days and components of other kinds leave no
/// trace.
pub proof fn lemma_untimed_give_nothing(components: Seq<ComponentView>)
    requires
        forall|i: int| 0 <= i < components.len() ==> !is_timed(#[trigger] components[i]),
    ensures
        decoded(components) == Seq::<Result<MirrorKey, SkippedView>>::empty(),
{
    if decoded(components).len() > 0 {
        let i = lemma_decoded_origin(components, 0);
    }
    assert(decoded(components) =~= Seq::<Result<MirrorKey, SkippedView>>::empty());
}

/// Whether `text` is a stamp in UTC, with a time of day, that is read back
/// as the instant `at`.
pub open spec fn reads_back(text: Seq<char>, at: Instant) -> bool {
    &&& text.contains('T')
    &&& ends_with(text, 'Z')
    &&& wall_clock_reading(text, utc_pattern()) == Some(WallClock { secs: at.secs, nanos: at.nanos })
}

/// An event whose start and end are whole seconds is written as it is, so
/// that what gives back the event as it was written gives back the event.
pub proof fn lemma_whole_seconds_are_written_as_they_are(event: EventKey)
    requires
        is_whole_second(event.start),
        is_whole_second(event.end),
    ensures
        as_written(event) == event,
{
}

/// The record of an event decodes to the event as it was written, under
/// the same identifier, wherever the two stamps that were written for it
/// are read back as the whole seconds of the instants they were written
/// from.
pub proof fn lemma_record_round_trip(event: EventKey, uid: Seq<char>)
    ensures
        ical_of(event, uid) matches Ok(calendar) ==> (reads_back(
            utc_text(event.start, utc_pattern())->0,
            whole_second(event.start),
        ) && reads_back(utc_text(event.end, utc_pattern())->0, whole_second(event.end))
            ==> instant_of(calendar.components[0].properties[2]) == Ok::<Instant, TimestampError>(
            whole_second(event.start),
        ) && instant_of(calendar.components[0].properties[3]) == Ok::<Instant, TimestampError>(
            whole_second(event.end),
        ) && decoded(calendar.components) == seq![
            Ok::<MirrorKey, SkippedView>(MirrorKey { caldav_uid: uid, event: as_written(event) }),
        ]),
{
    if let Ok(calendar) = ical_of(event, uid) {
        let start = utc_text(event.start, utc_pattern())->0;
        let end = utc_text(event.end, utc_pattern())->0;
        if reads_back(start, whole_second(event.start)) && reads_back(end, whole_second(event.end)) {
            let vevent = calendar.components[0];
            let properties = vevent.properties;
            reveal_strlit("UID");
            reveal_strlit("SUMMARY");
            reveal_strlit("DTSTART");
            reveal_strlit("DTEND");
            assert("UID"@.len() == 3 && "SUMMARY"@.len() == 7 && "DTSTART"@.len() == 7
                && "DTEND"@.len() == 5);
            assert("SUMMARY"@[0] != "DTSTART"@[0]);
            assert(properties[0].name == "UID"@ && properties[1].name == "SUMMARY"@
                && properties[2].name == "DTSTART"@ && properties[3].name == "DTEND"@);
            let p1 = properties.drop_first();
            let p2 = p1.drop_first();
            let p3 = p2.drop_first();
            assert(p1[0] == bare("SUMMARY"@, event.summary));
            assert(p2[0] == bare("DTSTART"@, start));
            assert(p3[0] == bare("DTEND"@, end));
            assert(find_property(p3, "DTEND"@) == Some(bare("DTEND"@, end)));
            assert(find_property(p2, "DTEND"@) == find_property(p3, "DTEND"@));
            assert(find_property(p1, "DTEND"@) == find_property(p2, "DTEND"@));
            assert(find_property(properties, "DTEND"@) == find_property(p1, "DTEND"@));
            assert(find_property(p2, "DTSTART"@) == Some(bare("DTSTART"@, start)));
            assert(find_property(p1, "DTSTART"@) == find_property(p2, "DTSTART"@));
            assert(find_property(properties, "DTSTART"@) == find_property(p1, "DTSTART"@));
            assert(find_property(p1, "SUMMARY"@) == Some(bare("SUMMARY"@, event.summary)));
            assert(find_property(properties, "SUMMARY"@) == find_property(p1, "SUMMARY"@));
            assert(find_property(properties, "UID"@) == Some(bare("UID"@, uid)));
            assert(instant_of(bare("DTSTART"@, start)) == Ok::<Instant, TimestampError>(
                whole_second(event.start),
            ));
            assert(instant_of(bare("DTEND"@, end)) == Ok::<Instant, TimestampError>(
                whole_second(event.end),
            ));
            assert(is_timed(vevent));
            assert(event_of(vevent) == Ok::<MirrorKey, DecodeError>(
                MirrorKey { caldav_uid: uid, event: as_written(event) },
            ));
            reveal_with_fuel(Seq::filter, 2);
            assert(calendar.components.drop_last() == Seq::<ComponentView>::empty());
            assert(calendar.components.filter(|c: ComponentView| is_timed(c)) == seq![vevent]);
            assert(decoded(calendar.components) == seq![
                Ok::<MirrorKey, SkippedView>(
                    MirrorKey { caldav_uid: uid, event: as_written(event) },
                ),
            ]);
        }
    }
}

} // verus!
