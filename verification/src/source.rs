//! The source side: which window of the source calendar is asked for, and
//! which of the listed records become events.

use crate::clock::Instant;
use crate::event::event_views;
use crate::event::Event;
use crate::event::EventKey;
use crate::text::same_text;
use vstd::prelude::*;
use vstd::string::StringExecFns;

verus! {

/// One record of the source calendar's listing, as far as the mirror
/// depends on it.
#[derive(Clone, Debug)]
pub struct SourceRecord {
    /// The response status of each attendee, in the listed order, where the
    /// record lists attendees at all.
    pub attendees: Option<Vec<Option<String>>>,
    /// The start, where it has a time of day.
    pub start: Option<Instant>,
    /// The end, where it has a time of day.
    pub end: Option<Instant>,
    pub summary: Option<String>,
}

/// What a record of the source is in contracts.
pub struct SourceRecordView {
    pub attendees: Option<Seq<Option<Seq<char>>>>,
    pub start: Option<Instant>,
    pub end: Option<Instant>,
    pub summary: Option<Seq<char>>,
}

/// What an optional text is in contracts.
pub open spec fn text_view(text: Option<String>) -> Option<Seq<char>> {
    match text {
        Some(t) => Some(t@),
        None => None,
    }
}

impl View for SourceRecord {
    type V = SourceRecordView;

    open spec fn view(&self) -> SourceRecordView {
        SourceRecordView {
            attendees: match self.attendees {
                Some(list) => Some(list@.map_values(|status: Option<String>| text_view(status))),
                None => None,
            },
            start: self.start,
            end: self.end,
            summary: text_view(self.summary),
        }
    }
}

/// The views of a list of records.
pub open spec fn record_views(records: Seq<SourceRecord>) -> Seq<SourceRecordView> {
    records.map_values(|r: SourceRecord| r@)
}

/// Whether the first listed attendee has declined. The other attendees are
/// not looked at, and a record without attendees is not declined.
pub open spec fn declined(record: SourceRecordView) -> bool {
    match record.attendees {
        Some(list) => list.len() > 0 && list[0] == Some("declined"@),
        None => false,
    }
}

/// The event of a record: none where the first attendee has declined, nor
/// where the start or the end has no time of day, nor without a summary.
pub open spec fn source_event(record: SourceRecordView) -> Option<EventKey> {
    if declined(record) {
        None
    } else {
        match (record.start, record.end, record.summary) {
            (Some(start), Some(end), Some(summary)) => Some(EventKey { start, end, summary }),
            _ => None,
        }
    }
}

/// The events of a listing, in its order.
pub open spec fn source_events(records: Seq<SourceRecordView>) -> Seq<EventKey> {
    records.filter(|r: SourceRecordView| source_event(r) is Some).map_values(
        |r: SourceRecordView| source_event(r)->0,
    )
}

/// Whether the first listed attendee of `record` has declined.
pub fn is_declined(record: &SourceRecord) -> (answer: bool)
    ensures
        answer == declined(record@),
{
    match &record.attendees {
        Some(list) => {
            if list.len() == 0 {
                return false;
            }
            match &list[0] {
                Some(status) => same_text(status.as_str(), "declined"),
                None => false,
            }
        },
        None => false,
    }
}

/// The event of one record, if it has one.
pub fn event_of_record(record: &SourceRecord) -> (event: Option<Event>)
    ensures
        match event {
            Some(e) => source_event(record@) == Some(e@),
            None => source_event(record@) is None,
        },
{
    if is_declined(record) {
        return None;
    }
    let start = record.start?;
    let end = record.end?;
    match &record.summary {
        Some(summary) => Some(Event { start, end, summary: summary.clone() }),
        None => None,
    }
}

/// Why a listing of the source gave no events.
#[derive(Clone, Copy, Debug, PartialEq, Eq, Structural)]
pub enum SourceError {
    /// The answer of the source carried no list of records. This is not an
    /// empty list: nothing may be concluded from it.
    NoListing,
}

/// The events of the source's listing. A listing that is there and empty
/// gives no events; a listing that is not there is an error.
pub fn fetch_google_events(items: Option<Vec<SourceRecord>>) -> (outcome: Result<
    Vec<Event>,
    SourceError,
>)
    ensures
        match outcome {
            Ok(events) => items matches Some(records) && event_views(events@) == source_events(
                record_views(records@),
            ),
            Err(error) => items is None && error == SourceError::NoListing,
        },
{
    let records = match items {
        Some(records) => records,
        None => {
            return Err(SourceError::NoListing);
        },
    };
    let ghost all = record_views(records@);
    let mut events: Vec<Event> = Vec::new();
    let mut i: usize = 0;
    while i < records.len()
        invariant
            i <= records.len(),
            all == record_views(records@),
            event_views(events@) == source_events(all.take(i as int)),
        decreases records.len() - i,
    {
        let ghost before = events@;
        let ghost longer = all.take(i as int + 1);
        proof {
            reveal(Seq::filter);
            assert(longer.drop_last() == all.take(i as int));
            assert(longer.last() == records@[i as int]@);
        }
        match event_of_record(&records[i]) {
            Some(event) => {
                proof {
                    let front = all.take(i as int).filter(
                        |r: SourceRecordView| source_event(r) is Some,
                    );
                    assert(longer.filter(|r: SourceRecordView| source_event(r) is Some)
                        == front.push(records@[i as int]@));
                    assert(source_events(longer) == source_events(all.take(i as int)).push(
                        event@,
                    ));
                }
                events.push(event);
                assert(event_views(events@) == event_views(before).push(event@));
            },
            None => {},
        }
        i += 1;
    }
    assert(all.take(records.len() as int) == all);
    Ok(events)
}

/// The seconds of a day.
pub const SECONDS_PER_DAY: i64 = 86_400;

/// The largest number of records that one listing is asked for.
pub const MAX_RESULTS: i32 = 2500;

/// The number of attendees that are asked for with each record: the first.
pub const MAX_ATTENDEES: i32 = 1;

/// What the source is asked: the single occurrences that start in a
/// window of time, ordered by their start.
#[derive(Clone, Debug)]
pub struct SourceQuery {
    pub time_min: Instant,
    pub time_max: Instant,
    pub single_events: bool,
    pub max_results: i32,
    pub max_attendees: i32,
    pub order_by: String,
    pub event_type: String,
}

/// What a query is in contracts.
pub struct SourceQueryView {
    pub time_min: Instant,
    pub time_max: Instant,
    pub single_events: bool,
    pub max_results: i32,
    pub max_attendees: i32,
    pub order_by: Seq<char>,
    pub event_type: Seq<char>,
}

impl View for SourceQuery {
    type V = SourceQueryView;

    open spec fn view(&self) -> SourceQueryView {
        SourceQueryView {
            time_min: self.time_min,
            time_max: self.time_max,
            single_events: self.single_events,
            max_results: self.max_results,
            max_attendees: self.max_attendees,
            order_by: self.order_by@,
            event_type: self.event_type@,
        }
    }
}

/// Whether a number of seconds can be counted in an `i64`.
pub open spec fn countable(seconds: int) -> bool {
    i64::MIN <= seconds <= i64::MAX
}

/// Whether the window of `radius_days` days to either side of `center` can
/// be counted.
pub open spec fn window_fits(center: Instant, radius_days: i64) -> bool {
    &&& countable(radius_days * SECONDS_PER_DAY)
    &&& countable(center.secs - radius_days * SECONDS_PER_DAY)
    &&& countable(center.secs + radius_days * SECONDS_PER_DAY)
}

/// The query for the window of `radius_days` days to either side of
/// `center`.
pub open spec fn query_of(center: Instant, radius_days: i64) -> SourceQueryView {
    SourceQueryView {
        time_min: Instant {
            secs: (center.secs - radius_days * SECONDS_PER_DAY) as i64,
            nanos: center.nanos,
        },
        time_max: Instant {
            secs: (center.secs + radius_days * SECONDS_PER_DAY) as i64,
            nanos: center.nanos,
        },
        single_events: true,
        max_results: MAX_RESULTS,
        max_attendees: MAX_ATTENDEES,
        order_by: "startTime"@,
        event_type: "default"@,
    }
}

/// The query for the events that start within `radius_days` days of
/// `center`, or `None` where the window cannot be counted in seconds.
pub fn source_query(center: Instant, radius_days: i64) -> (query: Option<SourceQuery>)
    ensures
        match query {
            Some(q) => window_fits(center, radius_days) && q@ == query_of(center, radius_days),
            None => !window_fits(center, radius_days),
        },
{
    let span = radius_days.checked_mul(SECONDS_PER_DAY)?;
    let earliest = center.secs.checked_sub(span)?;
    let latest = center.secs.checked_add(span)?;
    Some(
        SourceQuery {
            time_min: Instant { secs: earliest, nanos: center.nanos },
            time_max: Instant { secs: latest, nanos: center.nanos },
            single_events: true,
            max_results: MAX_RESULTS,
            max_attendees: MAX_ATTENDEES,
            order_by: String::from_str("startTime"),
            event_type: String::from_str("default"),
        },
    )
}

/// Every event of a listing comes from a record whose first attendee has
/// not declined and whose start and end have a time of day: the result
/// is the place of such a record for the event at place `j`.
pub proof fn lemma_source_event_origin(records: Seq<SourceRecordView>, j: int) -> (i: int)
    requires
        0 <= j < source_events(records).len(),
    ensures
        0 <= i < records.len(),
        !declined(records[i]),
        records[i].start is Some,
        records[i].end is Some,
        source_event(records[i]) == Some(source_events(records)[j]),
{
    let accepted = records.filter(|r: SourceRecordView| source_event(r) is Some);
    records.lemma_filter_pred(|r: SourceRecordView| source_event(r) is Some, j);
    assert(accepted.contains(accepted[j]));
    records.lemma_filter_contains_rev(|r: SourceRecordView| source_event(r) is Some, accepted[j]);
    let i = choose|i: int| 0 <= i < records.len() && records[i] == accepted[j];
    assert(source_event(records[i]) is Some);
    i
}

/// A listing in which the first attendee of every record has declined, or
/// in which no record has a start with a time of day, gives no event.
pub proof fn lemma_declined_and_all_day_give_nothing(records: Seq<SourceRecordView>)
    requires
        forall|i: int|
            0 <= i < records.len() ==> declined(#[trigger] records[i]) || records[i].start is None,
    ensures
        source_events(records) == Seq::<EventKey>::empty(),
{
    if source_events(records).len() > 0 {
        let i = lemma_source_event_origin(records, 0);
        assert(declined(records[i]) || records[i].start is None);
    }
    assert(source_events(records) =~= Seq::<EventKey>::empty());
}

} // verus!
