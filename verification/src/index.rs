//! A hash index over events, keyed by start, end and summary.

use crate::event::Event;
use crate::event::EventKey;
use std::collections::HashMap;
use vstd::prelude::*;
use vstd::std_specs::iter::IteratorSpec;

verus! {

broadcast use vstd::std_specs::hash::group_hash_axioms;

/// The modulus of the digest: every digest is below it.
pub const DIGEST_MODULUS: u64 = 1_000_000_007;

/// One step of the digest: the running value `h` takes in `x`.
pub open spec fn mix(h: int, x: int) -> int {
    (h * 31 + x % (DIGEST_MODULUS as int)) % (DIGEST_MODULUS as int)
}

/// The digest of a text: its characters mixed in from left to right.
pub open spec fn text_digest(text: Seq<char>) -> int
    decreases text.len(),
{
    if text.len() == 0 {
        0
    } else {
        mix(text_digest(text.drop_last()), text.last() as u32 as int)
    }
}

/// The digest of a key. Equal keys have equal digests; nothing else is
/// asked of it.
pub open spec fn key_digest(key: EventKey) -> int {
    mix(
        mix(
            mix(mix(text_digest(key.summary), key.start.secs as u64 as int), key.start.nanos as int),
            key.end.secs as u64 as int,
        ),
        key.end.nanos as int,
    )
}

fn mix_in(h: u64, x: u64) -> (r: u64)
    requires
        h < DIGEST_MODULUS,
    ensures
        r == mix(h as int, x as int),
        r < DIGEST_MODULUS,
{
    (h * 31 + x % DIGEST_MODULUS) % DIGEST_MODULUS
}

fn digest_text(text: &str) -> (r: u64)
    ensures
        r == text_digest(text@),
        r < DIGEST_MODULUS,
{
    let mut h: u64 = 0;
    let mut rest = text.chars();
    let ghost mut done: Seq<char> = Seq::empty();
    loop
        invariant
            h == text_digest(done),
            h < DIGEST_MODULUS,
            done + rest.remaining() == text@,
            rest.obeys_prophetic_iter_laws(),
            rest.decrease() is Some,
        decreases rest.decrease()->0,
    {
        match rest.next() {
            Some(c) => {
                let code: u32 = c as u32;
                h = mix_in(h, code as u64);
                proof {
                    assert(done.push(c).drop_last() == done);
                    assert(done.push(c).last() == c);
                    assert(done.push(c) + rest.remaining() == text@);
                    done = done.push(c);
                }
            },
            None => {
                proof {
                    assert(done == text@);
                }
                return h;
            },
        }
    }
}

/// The digest of an event's key.
pub fn digest(event: &Event) -> (r: u64)
    ensures
        r == key_digest(event@),
{
    let h0 = digest_text(event.summary.as_str());
    let h1 = mix_in(h0, event.start.secs as u64);
    let h2 = mix_in(h1, event.start.nanos as u64);
    let h3 = mix_in(h2, event.end.secs as u64);
    mix_in(h3, event.end.nanos as u64)
}

/// Whether one of `bucket` has the key `key`.
pub open spec fn bucket_holds(bucket: Seq<&Event>, key: EventKey) -> bool {
    exists|j: int| 0 <= j < bucket.len() && (#[trigger] bucket[j])@ == key
}

fn bucket_contains(bucket: &Vec<&Event>, wanted: &Event) -> (found: bool)
    ensures
        found == bucket_holds(bucket@, wanted@),
{
    let mut j: usize = 0;
    while j < bucket.len()
        invariant
            j <= bucket.len(),
            forall|k: int| 0 <= k < j ==> (#[trigger] bucket@[k])@ != wanted@,
        decreases bucket.len() - j,
    {
        if *bucket[j] == *wanted {
            return true;
        }
        j += 1;
    }
    false
}

/// A set of event keys that answers membership by hashing: the events are
/// kept in buckets by the digest of their key, and a lookup compares only
/// within one bucket.
pub struct EventIndex<'a> {
    buckets: HashMap<u64, Vec<&'a Event>>,
    keys: Ghost<Set<EventKey>>,
}

impl<'a> View for EventIndex<'a> {
    type V = Set<EventKey>;

    closed spec fn view(&self) -> Set<EventKey> {
        self.keys@
    }
}

impl<'a> EventIndex<'a> {
    /// Every bucket holds only keys of the set, under their own digest's
    /// bucket; every key of the set is in the bucket of its digest.
    pub closed spec fn wf(&self) -> bool {
        &&& forall|d: u64, j: int|
            self.buckets@.contains_key(d) && 0 <= j < self.buckets@[d]@.len()
                ==> self.keys@.contains((#[trigger] self.buckets@[d]@[j])@)
        &&& forall|k: EventKey| #[trigger]
            self.keys@.contains(k) ==> self.buckets@.contains_key(key_digest(k) as u64)
                && bucket_holds(self.buckets@[key_digest(k) as u64]@, k)
    }

    /// The index of no event.
    pub fn new() -> (index: Self)
        ensures
            index.wf(),
            index@ == Set::<EventKey>::empty(),
    {
        EventIndex { buckets: HashMap::new(), keys: Ghost(Set::empty()) }
    }

    /// Adds the key of `event`.
    pub fn insert(&mut self, event: &'a Event)
        requires
            old(self).wf(),
        ensures
            final(self).wf(),
            final(self)@ == old(self)@.insert(event@),
    {
        let d = digest(event);
        let mut bucket = match self.buckets.remove(&d) {
            Some(b) => b,
            None => Vec::new(),
        };
        let ghost before = bucket@;
        bucket.push(event);
        self.buckets.insert(d, bucket);
        self.keys = Ghost(self.keys@.insert(event@));
        proof {
            assert(self.buckets@[d]@ == before.push(event));
            assert(self.buckets@[d]@[before.len() as int]@ == event@);
            assert forall|k: EventKey| #[trigger] self.keys@.contains(k) implies
                self.buckets@.contains_key(key_digest(k) as u64) && bucket_holds(
                self.buckets@[key_digest(k) as u64]@,
                k,
            ) by {
                let dk = key_digest(k) as u64;
                if k == event@ {
                    assert(bucket_holds(self.buckets@[d]@, k));
                } else if dk == d {
                    assert(old(self).keys@.contains(k));
                    let j = choose|j: int|
                        0 <= j < before.len() && (#[trigger] before[j])@ == k;
                    assert(self.buckets@[d]@[j]@ == k);
                } else {
                    assert(old(self).keys@.contains(k));
                    assert(self.buckets@[dk] == old(self).buckets@[dk]);
                }
            }
        }
    }

    /// Whether the key of `wanted` is in the set.
    pub fn contains(&self, wanted: &Event) -> (found: bool)
        requires
            self.wf(),
        ensures
            found == self@.contains(wanted@),
    {
        let d = digest(wanted);
        match self.buckets.get(&d) {
            Some(bucket) => {
                let found = bucket_contains(bucket, wanted);
                proof {
                    if found {
                        let j = choose|j: int|
                            0 <= j < bucket@.len() && (#[trigger] bucket@[j])@ == wanted@;
                        assert(self.keys@.contains(self.buckets@[d]@[j]@));
                    }
                }
                found
            },
            None => false,
        }
    }
}

} // verus!
