//! The decisions of the periodic driver: what to do next, given what has
//! happened since.

use crate::diff::find_diff;
use crate::diff::event_refs;
use crate::diff::mirror_refs;
use crate::diff::missing;
use crate::diff::stale;
use crate::event::event_views;
use crate::event::mirror_views;
use crate::event::Event;
use crate::event::EventKey;
use crate::event::EventWithCaldavUid;
use crate::event::MirrorKey;
use vstd::prelude::*;

verus! {

/// Where a cycle stands. Between two cycles the driver is idle. A cycle
/// fetches the mirror, then the source, compares the two as soon as both
/// are there, and then applies the difference one request at a time.
#[derive(Debug)]
pub enum Driver {
    Idle,
    /// The mirror has been asked for its events.
    FetchingMirror,
    /// The mirror has answered, and the source has been asked.
    FetchingSource { mirror: Vec<EventWithCaldavUid> },
    /// A request is under way. The two lists hold what is still to be
    /// asked for, the next one last.
    Applying { to_delete: Vec<EventWithCaldavUid>, to_create: Vec<Event> },
}

/// What has happened.
#[derive(Debug)]
pub enum Input {
    /// The timer has fired.
    Tick,
    /// The mirror has listed its events.
    MirrorListed(Vec<EventWithCaldavUid>),
    /// The source has listed its events. An empty list says that the source
    /// has no events.
    SourceListed(Vec<Event>),
    /// The mirror has done what the last action asked for.
    Written,
    /// What the last action asked for has failed.
    Failed,
}

/// What to do next.
#[derive(Debug)]
pub enum Action {
    /// Nothing until the next tick: the cycle is over.
    Rest,
    /// Nothing: the input was not awaited, and changes nothing.
    Skip,
    /// List the events of the mirror.
    FetchMirror,
    /// List the events of the source.
    FetchSource,
    /// Delete this event from the mirror.
    Delete(EventWithCaldavUid),
    /// Create this event in the mirror.
    Create(Event),
}

/// What a state of the driver is in contracts.
pub enum DriverView {
    Idle,
    FetchingMirror,
    FetchingSource { mirror: Seq<MirrorKey> },
    /// What is still to be asked for, the next one first.
    Applying { to_delete: Seq<MirrorKey>, to_create: Seq<EventKey> },
}

/// What an input is in contracts.
pub enum InputView {
    Tick,
    MirrorListed(Seq<MirrorKey>),
    SourceListed(Seq<EventKey>),
    Written,
    Failed,
}

/// What an action is in contracts.
pub enum ActionView {
    Rest,
    Skip,
    FetchMirror,
    FetchSource,
    Delete(MirrorKey),
    Create(EventKey),
}

impl View for Driver {
    type V = DriverView;

    open spec fn view(&self) -> DriverView {
        match self {
            Driver::Idle => DriverView::Idle,
            Driver::FetchingMirror => DriverView::FetchingMirror,
            Driver::FetchingSource { mirror } => DriverView::FetchingSource {
                mirror: mirror_views(mirror@),
            },
            Driver::Applying { to_delete, to_create } => DriverView::Applying {
                to_delete: mirror_views(to_delete@).reverse(),
                to_create: event_views(to_create@).reverse(),
            },
        }
    }
}

impl View for Input {
    type V = InputView;

    open spec fn view(&self) -> InputView {
        match self {
            Input::Tick => InputView::Tick,
            Input::MirrorListed(events) => InputView::MirrorListed(mirror_views(events@)),
            Input::SourceListed(events) => InputView::SourceListed(event_views(events@)),
            Input::Written => InputView::Written,
            Input::Failed => InputView::Failed,
        }
    }
}

impl View for Action {
    type V = ActionView;

    open spec fn view(&self) -> ActionView {
        match self {
            Action::Rest => ActionView::Rest,
            Action::Skip => ActionView::Skip,
            Action::FetchMirror => ActionView::FetchMirror,
            Action::FetchSource => ActionView::FetchSource,
            Action::Delete(event) => ActionView::Delete(event@),
            Action::Create(event) => ActionView::Create(event@),
        }
    }
}

/// How many deletions and how many creations a state has still to ask for.
pub open spec fn pending_of(state: DriverView) -> (usize, usize) {
    match state {
        DriverView::Applying { to_delete, to_create } => (
            to_delete.len() as usize,
            to_create.len() as usize,
        ),
        _ => (0, 0),
    }
}

/// The next request of a cycle: the deletions come first, in their order,
/// then the creations; after the last one the cycle is over.
pub open spec fn advance(to_delete: Seq<MirrorKey>, to_create: Seq<EventKey>) -> (
    DriverView,
    ActionView,
) {
    if to_delete.len() > 0 {
        (
            DriverView::Applying { to_delete: to_delete.drop_first(), to_create },
            ActionView::Delete(to_delete[0]),
        )
    } else if to_create.len() > 0 {
        (
            DriverView::Applying { to_delete, to_create: to_create.drop_first() },
            ActionView::Create(to_create[0]),
        )
    } else {
        (DriverView::Idle, ActionView::Rest)
    }
}

/// The state after `input`, and what to do then.
///
/// A tick starts a cycle only where none is under way. The source is asked
/// once the mirror has answered; when it has answered too, the two are
/// compared and the first request goes out. Each request waits for the one
/// before it. A failure ends the cycle at once, and what was still to be
/// asked for is dropped. An input that the state does not await changes
/// nothing.
pub open spec fn next(state: DriverView, input: InputView) -> (DriverView, ActionView) {
    match (state, input) {
        (DriverView::Idle, InputView::Tick) => (
            DriverView::FetchingMirror,
            ActionView::FetchMirror,
        ),
        (DriverView::FetchingMirror, InputView::MirrorListed(mirror)) => (
            DriverView::FetchingSource { mirror },
            ActionView::FetchSource,
        ),
        (DriverView::FetchingSource { mirror }, InputView::SourceListed(source)) => advance(
            stale(mirror, source),
            missing(mirror, source),
        ),
        (DriverView::Applying { to_delete, to_create }, InputView::Written) => advance(
            to_delete,
            to_create,
        ),
        (DriverView::FetchingMirror, InputView::Failed) => (DriverView::Idle, ActionView::Rest),
        (DriverView::FetchingSource { .. }, InputView::Failed) => (
            DriverView::Idle,
            ActionView::Rest,
        ),
        (DriverView::Applying { .. }, InputView::Failed) => (DriverView::Idle, ActionView::Rest),
        _ => (state, ActionView::Skip),
    }
}

fn copy_event(event: &Event) -> (copy: Event)
    ensures
        copy@ == event@,
{
    Event { start: event.start, end: event.end, summary: event.summary.clone() }
}

fn copy_mirror_event(event: &EventWithCaldavUid) -> (copy: EventWithCaldavUid)
    ensures
        copy@ == event@,
{
    EventWithCaldavUid { caldav_uid: event.caldav_uid.clone(), event: copy_event(&event.event) }
}

proof fn lemma_reverse_push<A>(s: Seq<A>, x: A)
    ensures
        s.push(x).reverse() == seq![x] + s.reverse(),
        s.push(x).reverse().drop_first() == s.reverse(),
{
    let left = s.push(x).reverse();
    let right = seq![x] + s.reverse();
    assert(left.len() == right.len());
    assert forall|i: int| 0 <= i < left.len() implies left[i] == right[i] by {
        if i > 0 {
            assert(right[i] == s.reverse()[i - 1]);
        }
    }
    assert(left =~= right);
    assert(left.drop_first() =~= s.reverse());
}

fn queue_deletions(plan: &Vec<&EventWithCaldavUid>) -> (queue: Vec<EventWithCaldavUid>)
    ensures
        mirror_views(queue@).reverse() == mirror_refs(plan@),
{
    let mut queue: Vec<EventWithCaldavUid> = Vec::new();
    let mut k: usize = plan.len();
    while k > 0
        invariant
            k <= plan.len(),
            mirror_views(queue@).reverse() == mirror_refs(plan@).skip(k as int),
        decreases k,
    {
        k -= 1;
        let ghost before = queue@;
        let copy = copy_mirror_event(plan[k]);
        queue.push(copy);
        proof {
            lemma_reverse_push(mirror_views(before), copy@);
            assert(mirror_views(queue@) == mirror_views(before).push(copy@));
            assert(mirror_refs(plan@).skip(k as int) == seq![copy@] + mirror_refs(plan@).skip(
                k as int + 1,
            ));
        }
    }
    assert(mirror_refs(plan@).skip(0) == mirror_refs(plan@));
    queue
}

fn queue_creations(plan: &Vec<&Event>) -> (queue: Vec<Event>)
    ensures
        event_views(queue@).reverse() == event_refs(plan@),
{
    let mut queue: Vec<Event> = Vec::new();
    let mut k: usize = plan.len();
    while k > 0
        invariant
            k <= plan.len(),
            event_views(queue@).reverse() == event_refs(plan@).skip(k as int),
        decreases k,
    {
        k -= 1;
        let ghost before = queue@;
        let copy = copy_event(plan[k]);
        queue.push(copy);
        proof {
            lemma_reverse_push(event_views(before), copy@);
            assert(event_views(queue@) == event_views(before).push(copy@));
            assert(event_refs(plan@).skip(k as int) == seq![copy@] + event_refs(plan@).skip(
                k as int + 1,
            ));
        }
    }
    assert(event_refs(plan@).skip(0) == event_refs(plan@));
    queue
}

fn issue(to_delete: Vec<EventWithCaldavUid>, to_create: Vec<Event>) -> (after: (Driver, Action))
    ensures
        (after.0@, after.1@) == advance(
            mirror_views(to_delete@).reverse(),
            event_views(to_create@).reverse(),
        ),
{
    let mut to_delete = to_delete;
    let mut to_create = to_create;
    let ghost deletions = mirror_views(to_delete@).reverse();
    let ghost creations = event_views(to_create@).reverse();
    if to_delete.len() > 0 {
        let ghost before = to_delete@;
        let event = to_delete.pop().unwrap();
        proof {
            lemma_reverse_push(mirror_views(to_delete@), event@);
            assert(mirror_views(before) == mirror_views(to_delete@).push(event@));
        }
        (Driver::Applying { to_delete, to_create }, Action::Delete(event))
    } else if to_create.len() > 0 {
        let ghost before = to_create@;
        let event = to_create.pop().unwrap();
        proof {
            lemma_reverse_push(event_views(to_create@), event@);
            assert(event_views(before) == event_views(to_create@).push(event@));
        }
        (Driver::Applying { to_delete, to_create }, Action::Create(event))
    } else {
        (Driver::Idle, Action::Rest)
    }
}

impl Driver {
    /// A driver between two cycles.
    pub fn new() -> (driver: Driver)
        ensures
            driver@ == DriverView::Idle,
    {
        Driver::Idle
    }

    /// How many deletions and how many creations the cycle has still to
    /// ask for: none where no request is under way.
    pub fn pending(&self) -> (counts: (usize, usize))
        ensures
            counts == pending_of(self@),
    {
        match self {
            Driver::Applying { to_delete, to_create } => (to_delete.len(), to_create.len()),
            _ => (0, 0),
        }
    }

    /// Takes in what has happened, and says what to do next.
    pub fn step(self, input: Input) -> (after: (Driver, Action))
        ensures
            (after.0@, after.1@) == next(self@, input@),
    {
        match (self, input) {
            (Driver::Idle, Input::Tick) => (Driver::FetchingMirror, Action::FetchMirror),
            (Driver::FetchingMirror, Input::MirrorListed(mirror)) => (
                Driver::FetchingSource { mirror },
                Action::FetchSource,
            ),
            (Driver::FetchingSource { mirror }, Input::SourceListed(source)) => {
                let plan = find_diff(mirror.as_slice(), source.as_slice());
                issue(queue_deletions(&plan.0), queue_creations(&plan.1))
            },
            (Driver::Applying { to_delete, to_create }, Input::Written) => issue(
                to_delete,
                to_create,
            ),
            (Driver::FetchingMirror, Input::Failed) => (Driver::Idle, Action::Rest),
            (Driver::FetchingSource { .. }, Input::Failed) => (Driver::Idle, Action::Rest),
            (Driver::Applying { .. }, Input::Failed) => (Driver::Idle, Action::Rest),
            (state, _) => (state, Action::Skip),
        }
    }
}

/// The state after a run of inputs, and the actions along the way.
pub open spec fn run(state: DriverView, inputs: Seq<InputView>) -> (DriverView, Seq<ActionView>)
    decreases inputs.len(),
{
    if inputs.len() == 0 {
        (state, Seq::empty())
    } else {
        let (mid, action) = next(state, inputs[0]);
        let (end, actions) = run(mid, inputs.drop_first());
        (end, seq![action] + actions)
    }
}

/// The requests that a difference asks for: the deletions, then the
/// creations.
pub open spec fn requests(to_delete: Seq<MirrorKey>, to_create: Seq<EventKey>) -> Seq<ActionView> {
    to_delete.map_values(|m: MirrorKey| ActionView::Delete(m)) + to_create.map_values(
        |e: EventKey| ActionView::Create(e),
    )
}

/// The report, `count` times, that a request has been done.
pub open spec fn written(count: nat) -> Seq<InputView> {
    Seq::new(count, |i: int| InputView::Written)
}

/// The inputs of a cycle in which nothing fails: the tick, the two
/// listings, and one report for each request.
pub open spec fn cycle_inputs(mirror: Seq<MirrorKey>, source: Seq<EventKey>) -> Seq<InputView> {
    seq![InputView::Tick, InputView::MirrorListed(mirror), InputView::SourceListed(source)]
        + written(stale(mirror, source).len() + missing(mirror, source).len())
}

proof fn lemma_requests_run(to_delete: Seq<MirrorKey>, to_create: Seq<EventKey>)
    ensures
        ({
            let (state, action) = advance(to_delete, to_create);
            let (end, actions) = run(state, written(to_delete.len() + to_create.len()));
            &&& end == DriverView::Idle
            &&& seq![action] + actions == requests(to_delete, to_create).push(ActionView::Rest)
        }),
    decreases to_delete.len() + to_create.len(),
{
    let count = to_delete.len() + to_create.len();
    let (state, action) = advance(to_delete, to_create);
    let (end, actions) = run(state, written(count));
    if count == 0 {
        assert(seq![action] + actions =~= requests(to_delete, to_create).push(ActionView::Rest));
    } else {
        assert(written(count)[0] == InputView::Written);
        assert(written(count).drop_first() =~= written((count - 1) as nat));
        if to_delete.len() > 0 {
            lemma_requests_run(to_delete.drop_first(), to_create);
            let (mid, second) = advance(to_delete.drop_first(), to_create);
            assert(next(state, InputView::Written) == (mid, second));
            let (_end, rest) = run(mid, written((count - 1) as nat));
            assert(actions == seq![second] + rest);
            assert(seq![action] + requests(to_delete.drop_first(), to_create).push(
                ActionView::Rest,
            ) =~= requests(to_delete, to_create).push(ActionView::Rest));
        } else {
            lemma_requests_run(to_delete, to_create.drop_first());
            let (mid, second) = advance(to_delete, to_create.drop_first());
            assert(next(state, InputView::Written) == (mid, second));
            let (_end, rest) = run(mid, written((count - 1) as nat));
            assert(actions == seq![second] + rest);
            assert(seq![action] + requests(to_delete, to_create.drop_first()).push(
                ActionView::Rest,
            ) =~= requests(to_delete, to_create).push(ActionView::Rest));
        }
    }
}

/// A cycle in which nothing fails asks for the mirror, then for the source,
/// then for every deletion of the difference in its order, then for every
/// creation in its order, and ends idle: no creation goes out before the
/// last deletion is done.
pub proof fn lemma_cycle_applies_difference(mirror: Seq<MirrorKey>, source: Seq<EventKey>)
    ensures
        run(DriverView::Idle, cycle_inputs(mirror, source)) == (
            DriverView::Idle,
            seq![ActionView::FetchMirror, ActionView::FetchSource] + requests(
                stale(mirror, source),
                missing(mirror, source),
            ).push(ActionView::Rest),
        ),
{
    let gone = stale(mirror, source);
    let fresh = missing(mirror, source);
    let reports = written(gone.len() + fresh.len());
    let inputs = cycle_inputs(mirror, source);
    let after_tick = inputs.drop_first();
    let after_mirror = after_tick.drop_first();
    assert(after_mirror.drop_first() =~= reports);
    assert(inputs[0] == InputView::Tick);
    assert(after_tick[0] == InputView::MirrorListed(mirror));
    assert(after_mirror[0] == InputView::SourceListed(source));
    lemma_requests_run(gone, fresh);
    let (state, action) = advance(gone, fresh);
    let (end, actions) = run(state, reports);
    assert(run(DriverView::FetchingSource { mirror }, after_mirror) == (
        end,
        seq![action] + actions,
    ));
    assert(run(DriverView::FetchingMirror, after_tick) == (
        end,
        seq![ActionView::FetchSource] + (seq![action] + actions),
    ));
    assert(run(DriverView::Idle, inputs) == (
        end,
        seq![ActionView::FetchMirror] + (seq![ActionView::FetchSource] + (seq![action]
            + actions)),
    ));
    assert(seq![ActionView::FetchMirror] + (seq![ActionView::FetchSource] + (seq![action]
        + actions)) =~= seq![ActionView::FetchMirror, ActionView::FetchSource] + requests(
        gone,
        fresh,
    ).push(ActionView::Rest));
}

/// While a cycle is under way a tick starts no other: it changes nothing.
pub proof fn lemma_tick_in_cycle_is_skipped(state: DriverView)
    requires
        state != DriverView::Idle,
    ensures
        next(state, InputView::Tick) == (state, ActionView::Skip),
{
}

/// A failure ends the cycle at once: nothing of it is asked for any more,
/// and the next tick starts a new cycle.
pub proof fn lemma_failure_ends_cycle(state: DriverView)
    requires
        state != DriverView::Idle,
    ensures
        next(state, InputView::Failed) == (DriverView::Idle, ActionView::Rest),
        next(next(state, InputView::Failed).0, InputView::Tick) == (
            DriverView::FetchingMirror,
            ActionView::FetchMirror,
        ),
{
}

/// A creation is asked for only when no deletion is left.
pub proof fn lemma_creation_after_deletions(state: DriverView, input: InputView)
    ensures
        next(state, input).1 is Create ==> (next(state, input).0 matches DriverView::Applying {
            to_delete,
            ..
        } && to_delete.len() == 0),
{
}

} // verus!
