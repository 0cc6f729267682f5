//! The events that are compared and mirrored.

use crate::clock::Instant;
use vstd::prelude::*;
use vstd::std_specs::cmp::PartialEqSpecImpl;

verus! {

/// What two events are compared by: start, end and the text of the summary.
pub struct EventKey {
    pub start: Instant,
    pub end: Instant,
    pub summary: Seq<char>,
}

/// A calendar event as the diff sees it.
#[derive(Clone, Debug, Hash)]
pub struct Event {
    pub start: Instant,
    pub end: Instant,
    pub summary: String,
}

/// An event of the mirror, with the identifier under which the mirror
/// stores it. The identifier takes no part in any comparison.
#[derive(Clone, Debug)]
pub struct EventWithCaldavUid {
    pub caldav_uid: String,
    pub event: Event,
}

/// What a mirror event is in contracts: its identifier and its key.
pub struct MirrorKey {
    pub caldav_uid: Seq<char>,
    pub event: EventKey,
}

impl View for EventWithCaldavUid {
    type V = MirrorKey;

    open spec fn view(&self) -> MirrorKey {
        MirrorKey { caldav_uid: self.caldav_uid@, event: self.event@ }
    }
}

impl View for Event {
    type V = EventKey;

    open spec fn view(&self) -> EventKey {
        EventKey { start: self.start, end: self.end, summary: self.summary@ }
    }
}

/// The keys of a list of events, in its order.
pub open spec fn event_views(events: Seq<Event>) -> Seq<EventKey> {
    events.map_values(|e: Event| e@)
}

/// What a list of mirror events is in contracts.
pub open spec fn mirror_views(events: Seq<EventWithCaldavUid>) -> Seq<MirrorKey> {
    events.map_values(|e: EventWithCaldavUid| e@)
}

impl PartialEq for Event {
    fn eq(&self, other: &Self) -> (same: bool) {
        self.start == other.start && self.end == other.end && self.summary == other.summary
    }
}

impl Eq for Event {

}

impl PartialEqSpecImpl for Event {
    open spec fn obeys_eq_spec() -> bool {
        true
    }

    open spec fn eq_spec(&self, other: &Self) -> bool {
        self@ == other@
    }
}

} // verus!
