//! The value-based difference between the mirror and the source.

use crate::event::event_views;
use crate::event::mirror_views;
use crate::event::Event;
use crate::event::EventKey;
use crate::event::EventWithCaldavUid;
use crate::event::MirrorKey;
use crate::index::EventIndex;
use vstd::prelude::*;

verus! {

/// The keys of the mirror's events, in the mirror's order.
pub open spec fn keys_of(mirror: Seq<MirrorKey>) -> Seq<EventKey> {
    mirror.map_values(|m: MirrorKey| m.event)
}

/// The mirror events whose key the source does not have, in the mirror's
/// order.
pub open spec fn stale(mirror: Seq<MirrorKey>, source: Seq<EventKey>) -> Seq<MirrorKey> {
    mirror.filter(|m: MirrorKey| !source.contains(m.event))
}

/// The source events whose key the mirror does not have, in the source's
/// order.
pub open spec fn missing(mirror: Seq<MirrorKey>, source: Seq<EventKey>) -> Seq<EventKey> {
    source.filter(|e: EventKey| !keys_of(mirror).contains(e))
}

/// What the mirror holds once `to_delete` has been removed from `mirror`
/// and `created` has been added to it.
pub open spec fn applied(
    mirror: Seq<MirrorKey>,
    to_delete: Seq<MirrorKey>,
    created: Seq<MirrorKey>,
) -> Seq<MirrorKey> {
    mirror.filter(|m: MirrorKey| !to_delete.contains(m)) + created
}

/// The mirror events behind a list of references.
pub open spec fn mirror_refs(events: Seq<&EventWithCaldavUid>) -> Seq<MirrorKey> {
    events.map_values(|e: &EventWithCaldavUid| e@)
}

/// The keys of the events behind a list of references.
pub open spec fn event_refs(events: Seq<&Event>) -> Seq<EventKey> {
    events.map_values(|e: &Event| e@)
}

/// What has to change in the mirror so that it holds the events of the
/// source: the first list is the mirror events to delete, the second the
/// source events to create. An event is looked up by start, end and summary
/// alone, through a hash index of the other side.
pub fn find_diff<'a>(current: &'a [EventWithCaldavUid], target: &'a [Event]) -> (plan: (
    Vec<&'a EventWithCaldavUid>,
    Vec<&'a Event>,
))
    ensures
        mirror_refs(plan.0@) == stale(mirror_views(current@), event_views(target@)),
        event_refs(plan.1@) == missing(mirror_views(current@), event_views(target@)),
{
    let ghost mirror = mirror_views(current@);
    let ghost source = event_views(target@);
    let mut current_set = EventIndex::new();
    let mut i: usize = 0;
    while i < current.len()
        invariant
            i <= current.len(),
            mirror == mirror_views(current@),
            current_set.wf(),
            current_set@ == keys_of(mirror).take(i as int).to_set(),
        decreases current.len() - i,
    {
        proof {
            keys_of(mirror).take(i as int).lemma_push_to_set_commute(current@[i as int].event@);
            assert(keys_of(mirror).take(i as int + 1) == keys_of(mirror).take(i as int).push(
                current@[i as int].event@,
            ));
        }
        current_set.insert(&current[i].event);
        i += 1;
    }
    assert(keys_of(mirror).take(current.len() as int) == keys_of(mirror));

    let mut target_set = EventIndex::new();
    let mut i: usize = 0;
    while i < target.len()
        invariant
            i <= target.len(),
            source == event_views(target@),
            target_set.wf(),
            target_set@ == source.take(i as int).to_set(),
        decreases target.len() - i,
    {
        proof {
            source.take(i as int).lemma_push_to_set_commute(target@[i as int]@);
            assert(source.take(i as int + 1) == source.take(i as int).push(target@[i as int]@));
        }
        target_set.insert(&target[i]);
        i += 1;
    }
    assert(source.take(target.len() as int) == source);

    let mut to_delete: Vec<&'a EventWithCaldavUid> = Vec::new();
    let mut to_create: Vec<&'a Event> = Vec::new();

    let mut i: usize = 0;
    while i < current.len()
        invariant
            i <= current.len(),
            mirror == mirror_views(current@),
            target_set.wf(),
            target_set@ == source.to_set(),
            mirror_refs(to_delete@) == stale(mirror.take(i as int), source),
        decreases current.len() - i,
    {
        let event_with_caldav_uid = &current[i];
        let ghost before = to_delete@;
        let ghost longer = mirror.take(i as int + 1);
        proof {
            reveal(Seq::filter);
            assert(longer.drop_last() == mirror.take(i as int));
            assert(longer.last() == event_with_caldav_uid@);
        }
        if !target_set.contains(&event_with_caldav_uid.event) {
            to_delete.push(event_with_caldav_uid);
            assert(mirror_refs(to_delete@) == mirror_refs(before).push(event_with_caldav_uid@));
        }
        i += 1;
    }
    assert(mirror.take(current.len() as int) == mirror);

    let mut i: usize = 0;
    while i < target.len()
        invariant
            i <= target.len(),
            source == event_views(target@),
            current_set.wf(),
            current_set@ == keys_of(mirror).to_set(),
            event_refs(to_create@) == missing(mirror, source.take(i as int)),
        decreases target.len() - i,
    {
        let event = &target[i];
        let ghost before = to_create@;
        let ghost longer = source.take(i as int + 1);
        proof {
            reveal(Seq::filter);
            assert(longer.drop_last() == source.take(i as int));
            assert(longer.last() == event@);
        }
        if !current_set.contains(event) {
            to_create.push(event);
            assert(event_refs(to_create@) == event_refs(before).push(event@));
        }
        i += 1;
    }
    assert(source.take(target.len() as int) == source);

    (to_delete, to_create)
}

proof fn lemma_filter_members<A>(s: Seq<A>, keep: spec_fn(A) -> bool)
    ensures
        forall|x: A| #[trigger] s.filter(keep).contains(x) <==> s.contains(x) && keep(x),
{
    assert forall|x: A| #[trigger] s.filter(keep).contains(x) <==> s.contains(x) && keep(x) by {
        if s.filter(keep).contains(x) {
            let i = choose|i: int| 0 <= i < s.filter(keep).len() && s.filter(keep)[i] == x;
            s.lemma_filter_pred(keep, i);
            s.lemma_filter_contains_rev(keep, x);
        }
        if s.contains(x) && keep(x) {
            let i = choose|i: int| 0 <= i < s.len() && s[i] == x;
            s.lemma_filter_contains(keep, i);
        }
    }
}

proof fn lemma_keys_of_members(mirror: Seq<MirrorKey>)
    ensures
        forall|m: MirrorKey| mirror.contains(m) ==> #[trigger] keys_of(mirror).contains(m.event),
        forall|key: EventKey| #[trigger]
            keys_of(mirror).contains(key) ==> exists|m: MirrorKey|
                #[trigger] mirror.contains(m) && m.event == key,
{
    assert forall|m: MirrorKey| mirror.contains(m) implies #[trigger] keys_of(mirror).contains(
        m.event,
    ) by {
        let i = choose|i: int| 0 <= i < mirror.len() && mirror[i] == m;
        assert(keys_of(mirror)[i] == m.event);
    }
    assert forall|key: EventKey| #[trigger] keys_of(mirror).contains(key) implies exists|
        m: MirrorKey,
    | #[trigger] mirror.contains(m) && m.event == key by {
        let i = choose|i: int| 0 <= i < keys_of(mirror).len() && keys_of(mirror)[i] == key;
        assert(mirror.contains(mirror[i]));
    }
}

/// The events to delete are, by key, the mirror's events without the
/// source's; the events to create are the source's without the mirror's.
pub proof fn lemma_diff_is_set_difference(mirror: Seq<MirrorKey>, source: Seq<EventKey>)
    ensures
        keys_of(stale(mirror, source)).to_set() == keys_of(mirror).to_set().difference(
            source.to_set(),
        ),
        missing(mirror, source).to_set() == source.to_set().difference(keys_of(mirror).to_set()),
{
    let gone = stale(mirror, source);
    let fresh = missing(mirror, source);
    lemma_filter_members(mirror, |m: MirrorKey| !source.contains(m.event));
    lemma_filter_members(source, |e: EventKey| !keys_of(mirror).contains(e));
    lemma_keys_of_members(mirror);
    lemma_keys_of_members(gone);
    assert forall|key: EventKey| #[trigger]
        keys_of(gone).to_set().contains(key) <==> keys_of(mirror).to_set().contains(key)
            && !source.to_set().contains(key) by {
        if keys_of(gone).contains(key) {
            let m = choose|m: MirrorKey| #[trigger] gone.contains(m) && m.event == key;
            assert(mirror.contains(m));
        }
        if keys_of(mirror).contains(key) && !source.contains(key) {
            let m = choose|m: MirrorKey| #[trigger] mirror.contains(m) && m.event == key;
            assert(gone.contains(m));
        }
    }
    assert(keys_of(gone).to_set() =~= keys_of(mirror).to_set().difference(source.to_set()));
    assert(fresh.to_set() =~= source.to_set().difference(keys_of(mirror).to_set()));
}

/// Deleting what the diff lists for deletion and adding the events that it
/// lists for creation, under whatever identifiers, leaves a mirror that
/// holds, by key, exactly the events of the source.
pub proof fn lemma_apply_reaches_source(
    mirror: Seq<MirrorKey>,
    source: Seq<EventKey>,
    created: Seq<MirrorKey>,
)
    requires
        keys_of(created) == missing(mirror, source),
    ensures
        keys_of(applied(mirror, stale(mirror, source), created)).to_set() == source.to_set(),
{
    let gone = stale(mirror, source);
    let fresh = missing(mirror, source);
    let kept = mirror.filter(|m: MirrorKey| !gone.contains(m));
    let after = applied(mirror, gone, created);
    lemma_filter_members(mirror, |m: MirrorKey| !source.contains(m.event));
    lemma_filter_members(source, |e: EventKey| !keys_of(mirror).contains(e));
    lemma_filter_members(mirror, |m: MirrorKey| !gone.contains(m));
    lemma_keys_of_members(mirror);
    lemma_keys_of_members(after);
    lemma_keys_of_members(created);
    assert forall|key: EventKey| #[trigger]
        keys_of(after).to_set().contains(key) <==> source.to_set().contains(key) by {
        if keys_of(after).contains(key) {
            let m = choose|m: MirrorKey| #[trigger] after.contains(m) && m.event == key;
            let i = choose|i: int| 0 <= i < after.len() && after[i] == m;
            if i < kept.len() {
                assert(kept[i] == m);
                assert(kept.contains(m));
            } else {
                assert(created[i - kept.len()] == m);
                assert(created.contains(m));
                assert(keys_of(created).contains(key));
                assert(fresh.contains(key));
            }
        }
        if source.contains(key) {
            if keys_of(mirror).contains(key) {
                let m = choose|m: MirrorKey| #[trigger] mirror.contains(m) && m.event == key;
                assert(kept.contains(m));
                let i = choose|i: int| 0 <= i < kept.len() && kept[i] == m;
                assert(after[i] == m);
                assert(after.contains(m));
            } else {
                assert(fresh.contains(key));
                let m = choose|m: MirrorKey| #[trigger] created.contains(m) && m.event == key;
                let i = choose|i: int| 0 <= i < created.len() && created[i] == m;
                assert(after[kept.len() + i] == m);
                assert(after.contains(m));
            }
        }
    }
    assert(keys_of(after).to_set() =~= source.to_set());
}

/// Where the mirror and the source hold the same events by key, the diff
/// asks for nothing.
pub proof fn lemma_equal_sides_need_nothing(mirror: Seq<MirrorKey>, source: Seq<EventKey>)
    requires
        keys_of(mirror).to_set() == source.to_set(),
    ensures
        stale(mirror, source) == Seq::<MirrorKey>::empty(),
        missing(mirror, source) == Seq::<EventKey>::empty(),
{
    let gone = stale(mirror, source);
    let fresh = missing(mirror, source);
    lemma_filter_members(mirror, |m: MirrorKey| !source.contains(m.event));
    lemma_filter_members(source, |e: EventKey| !keys_of(mirror).contains(e));
    lemma_keys_of_members(mirror);
    if gone.len() > 0 {
        assert(gone.contains(gone[0]));
        assert(keys_of(mirror).to_set().contains(gone[0].event));
        assert(source.to_set().contains(gone[0].event));
    }
    if fresh.len() > 0 {
        assert(fresh.contains(fresh[0]));
        assert(source.to_set().contains(fresh[0]));
        assert(keys_of(mirror).to_set().contains(fresh[0]));
    }
    assert(gone =~= Seq::<MirrorKey>::empty());
    assert(fresh =~= Seq::<EventKey>::empty());
}

/// A mirror compared with its own events needs no change.
pub proof fn lemma_diff_with_itself_is_empty(mirror: Seq<MirrorKey>)
    ensures
        stale(mirror, keys_of(mirror)) == Seq::<MirrorKey>::empty(),
        missing(mirror, keys_of(mirror)) == Seq::<EventKey>::empty(),
{
    lemma_equal_sides_need_nothing(mirror, keys_of(mirror));
}

/// Once a diff has been applied, the diff of the new mirror with the same
/// source asks for nothing.
pub proof fn lemma_diff_after_apply_is_empty(
    mirror: Seq<MirrorKey>,
    source: Seq<EventKey>,
    created: Seq<MirrorKey>,
)
    requires
        keys_of(created) == missing(mirror, source),
    ensures
        stale(applied(mirror, stale(mirror, source), created), source) == Seq::<MirrorKey>::empty(),
        missing(applied(mirror, stale(mirror, source), created), source) == Seq::<
            EventKey,
        >::empty(),
{
    lemma_apply_reaches_source(mirror, source, created);
    lemma_equal_sides_need_nothing(applied(mirror, stale(mirror, source), created), source);
}

} // verus!
